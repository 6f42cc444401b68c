use vstd::prelude::*;
use vstd::string::*;

verus! {

/// A scalar JSON value.
#[derive(Debug, Clone)]
pub enum Value {
    UInt(u64),
    Str(String),
    Bool(bool),
}

/// A positional parameter of a node request: a value or an object.
#[derive(Debug, Clone)]
pub enum Param {
    Value(Value),
    Object(Vec<(String, Value)>),
}

/// A node request: the method name and its positional parameters.
#[derive(Debug, Clone)]
pub struct RpcRequest {
    pub method: String,
    pub params: Vec<Param>,
}

/// Identifier of a loan scheme.
#[derive(Debug, Clone)]
pub struct LoanSchemeId {
    pub id: String,
}

/// A token's identifier and symbol.
#[derive(Debug, Clone)]
pub struct TokenIdSymbol {
    pub id: String,
    pub symbol: String,
}

/// `p` is the string value `s`.
pub open spec fn is_str(p: Param, s: Seq<char>) -> bool {
    p matches Param::Value(Value::Str(x)) && x@ == s
}

/// `f` is the field `key` with string value `s`.
pub open spec fn is_str_field(f: (String, Value), key: Seq<char>, s: Seq<char>) -> bool {
    f.0@ == key && (f.1 matches Value::Str(x) && x@ == s)
}

/// `f` is the field `key` with integer value `n`.
pub open spec fn is_uint_field(f: (String, Value), key: Seq<char>, n: u64) -> bool {
    f.0@ == key && f.1 == Value::UInt(n)
}

/// Identifier of the price feed of `token` in USD: `<token>/USD`.
pub open spec fn usd_price_id(token: Seq<char>) -> Seq<char> {
    token + seq!['/', 'U', 'S', 'D']
}

fn text(s: &str) -> (r: String)
    ensures
        r@ == s@,
{
    String::from_str(s)
}

fn str_field(key: &str, value: &str) -> (r: (String, Value))
    ensures
        is_str_field(r, key@, value@),
{
    (text(key), Value::Str(text(value)))
}

fn usd_price_id_of(token: &str) -> (r: String)
    ensures
        r@ == usd_price_id(token@),
{
    proof {
        reveal_strlit("/USD");
    }
    let mut s = text(token);
    s.append("/USD");
    s
}

/// Builds the requests of the loan methods of a node.
#[derive(Debug, Clone, Copy, Default)]
pub struct Client {}

impl Client {
    pub fn new() -> (r: Client) {
        Client {}
    }

    fn request(method: &str, params: Vec<Param>) -> (r: RpcRequest)
        ensures
            r.method@ == method@,
            r.params@ == params@,
    {
        RpcRequest { method: text(method), params }
    }

    fn request_with_str(method: &str, arg: &str) -> (r: RpcRequest)
        ensures
            r.method@ == method@,
            r.params@.len() == 1,
            is_str(r.params@[0], arg@),
    {
        let mut params: Vec<Param> = Vec::new();
        params.push(Param::Value(Value::Str(text(arg))));
        Self::request(method, params)
    }

    /// `createloanscheme` with the minimum collateral ratio, the interest
    /// rate and the scheme's identifier.
    pub fn create_loan_scheme(&self, min_col_ratio: u32, interest_rate: &str, id: &str) -> (r: RpcRequest)
        ensures
            r.method@ == "createloanscheme"@,
            r.params@.len() == 3,
            r.params@[0] == Param::Value(Value::UInt(min_col_ratio as u64)),
            is_str(r.params@[1], interest_rate@),
            is_str(r.params@[2], id@),
    {
        let mut params: Vec<Param> = Vec::new();
        params.push(Param::Value(Value::UInt(min_col_ratio as u64)));
        params.push(Param::Value(Value::Str(text(interest_rate))));
        params.push(Param::Value(Value::Str(text(id))));
        Self::request("createloanscheme", params)
    }

    /// `listloanschemes`, without parameters.
    pub fn list_loan_schemes(&self) -> (r: RpcRequest)
        ensures
            r.method@ == "listloanschemes"@,
            r.params@.len() == 0,
    {
        Self::request("listloanschemes", Vec::new())
    }

    /// `getloanscheme` for one scheme.
    pub fn get_loan_scheme(&self, scheme_id: &str) -> (r: RpcRequest)
        ensures
            r.method@ == "getloanscheme"@,
            r.params@.len() == 1,
            is_str(r.params@[0], scheme_id@),
    {
        Self::request_with_str("getloanscheme", scheme_id)
    }

    /// `setdefaultloanscheme` for one scheme.
    pub fn set_default_loan_schemes(&self, scheme_id: &str) -> (r: RpcRequest)
        ensures
            r.method@ == "setdefaultloanscheme"@,
            r.params@.len() == 1,
            is_str(r.params@[0], scheme_id@),
    {
        Self::request_with_str("setdefaultloanscheme", scheme_id)
    }

    /// `getloanscheme` for one scheme.
    pub fn get_loan_schemes(&self, scheme_id: &str) -> (r: RpcRequest)
        ensures
            r.method@ == "getloanscheme"@,
            r.params@.len() == 1,
            is_str(r.params@[0], scheme_id@),
    {
        Self::request_with_str("getloanscheme", scheme_id)
    }

    /// `loanpayback` of `amount` from `address` into a vault.
    pub fn loan_payback(&self, vault_id: &str, address: &str, amount: &str) -> (r: RpcRequest)
        ensures
            r.method@ == "loanpayback"@,
            r.params@.len() == 1,
            (r.params@[0] matches Param::Object(fields) && fields@.len() == 3
                && is_str_field(fields@[0], "vaultId"@, vault_id@)
                && is_str_field(fields@[1], "from"@, address@)
                && is_str_field(fields@[2], "amounts"@, amount@)),
    {
        let mut fields: Vec<(String, Value)> = Vec::new();
        fields.push(str_field("vaultId", vault_id));
        fields.push(str_field("from", address));
        fields.push(str_field("amounts", amount));
        let mut params: Vec<Param> = Vec::new();
        params.push(Param::Object(fields));
        Self::request("loanpayback", params)
    }

    /// `takeloan` of `amount` from a vault.
    pub fn take_loan(&self, vault_id: &str, amount: &str) -> (r: RpcRequest)
        ensures
            r.method@ == "takeloan"@,
            r.params@.len() == 1,
            (r.params@[0] matches Param::Object(fields) && fields@.len() == 2
                && is_str_field(fields@[0], "vaultId"@, vault_id@)
                && is_str_field(fields@[1], "amounts"@, amount@)),
    {
        let mut fields: Vec<(String, Value)> = Vec::new();
        fields.push(str_field("vaultId", vault_id));
        fields.push(str_field("amounts", amount));
        let mut params: Vec<Param> = Vec::new();
        params.push(Param::Object(fields));
        Self::request("takeloan", params)
    }

    /// `setcollateraltoken` for `token` with factor 1 and its USD price feed.
    pub fn set_collateral_tokens(&self, token: &str) -> (r: RpcRequest)
        ensures
            r.method@ == "setcollateraltoken"@,
            r.params@.len() == 1,
            (r.params@[0] matches Param::Object(fields) && fields@.len() == 3
                && is_str_field(fields@[0], "token"@, token@)
                && is_uint_field(fields@[1], "factor"@, 1)
                && is_str_field(fields@[2], "fixedIntervalPriceId"@, usd_price_id(token@))),
    {
        let mut fields: Vec<(String, Value)> = Vec::new();
        fields.push(str_field("token", token));
        fields.push((text("factor"), Value::UInt(1)));
        fields.push((text("fixedIntervalPriceId"), Value::Str(usd_price_id_of(token))));
        let mut params: Vec<Param> = Vec::new();
        params.push(Param::Object(fields));
        Self::request("setcollateraltoken", params)
    }

    /// `listcollateraltokens`, without parameters.
    pub fn list_collateral_tokens(&self) -> (r: RpcRequest)
        ensures
            r.method@ == "listcollateraltokens"@,
            r.params@.len() == 0,
    {
        Self::request("listcollateraltokens", Vec::new())
    }

    /// `getcollateraltoken` for one token.
    pub fn get_collateral_token(&self, token: &str) -> (r: RpcRequest)
        ensures
            r.method@ == "getcollateraltoken"@,
            r.params@.len() == 1,
            is_str(r.params@[0], token@),
    {
        Self::request_with_str("getcollateraltoken", token)
    }

    /// `setloantoken` for `token`: named `<token> token`, mintable, with
    /// interest 1 and its USD price feed.
    pub fn set_loan_token(&self, token: &str) -> (r: RpcRequest)
        ensures
            r.method@ == "setloantoken"@,
            r.params@.len() == 1,
            (r.params@[0] matches Param::Object(fields) && fields@.len() == 5
                && is_str_field(fields@[0], "symbol"@, token@)
                && is_str_field(fields@[1], "name"@, token@ + " token"@)
                && is_str_field(fields@[2], "fixedIntervalPriceId"@, usd_price_id(token@))
                && fields@[3].0@ == "mintable"@ && fields@[3].1 == Value::Bool(true)
                && is_uint_field(fields@[4], "interest"@, 1)),
    {
        let mut name = text(token);
        name.append(" token");
        let mut fields: Vec<(String, Value)> = Vec::new();
        fields.push(str_field("symbol", token));
        fields.push((text("name"), Value::Str(name)));
        fields.push((text("fixedIntervalPriceId"), Value::Str(usd_price_id_of(token))));
        fields.push((text("mintable"), Value::Bool(true)));
        fields.push((text("interest"), Value::UInt(1)));
        let mut params: Vec<Param> = Vec::new();
        params.push(Param::Object(fields));
        Self::request("setloantoken", params)
    }

    /// `getloaninfo`, without parameters.
    pub fn get_loan_info(&self) -> (r: RpcRequest)
        ensures
            r.method@ == "getloaninfo"@,
            r.params@.len() == 0,
    {
        Self::request("getloaninfo", Vec::new())
    }
}

/// Position of the first scheme flagged as default among the flags of a
/// listed sequence of schemes.
pub fn default_scheme_index(defaults: &Vec<bool>) -> (r: Option<usize>)
    ensures
        r is None <==> forall|i: int| 0 <= i < defaults@.len() ==> !defaults@[i],
        r matches Some(i) ==> i < defaults@.len() && defaults@[i as int]
            && forall|j: int| 0 <= j < i ==> !defaults@[j],
{
    let mut i: usize = 0;
    while i < defaults.len()
        invariant
            i <= defaults@.len(),
            forall|j: int| 0 <= j < i ==> !defaults@[j],
        decreases defaults@.len() - i,
    {
        if defaults[i] {
            return Some(i);
        }
        i = i + 1;
    }
    None
}

/// Amount minted of each new loan token.
pub const LOAN_TOKEN_MINT_AMOUNT: u64 = 1000;

/// Stage of setting up one loan token.
#[derive(Debug, Clone, Copy, PartialEq, Eq, Structural)]
pub enum LoanTokenPhase {
    Check,
    Create,
    Confirm,
    Mint,
}

/// Progress of setting up loan tokens `0 .. total`, one after another.
#[derive(Debug, Clone, Copy, PartialEq, Eq, Structural)]
pub struct LoanTokenSetup {
    pub token: usize,
    pub total: usize,
    pub phase: LoanTokenPhase,
}

/// What the caller does next for the token at the given position.
#[derive(Debug, Clone, Copy, PartialEq, Eq, Structural)]
pub enum LoanTokenAction {
    /// Ask the node whether the token exists.
    CheckExists(usize),
    /// Send `set_loan_token` for the token.
    Create(usize),
    /// Wait for one confirmation of the creation.
    AwaitConfirmation(usize),
    /// Mint the given amount of the token.
    Mint(usize, u64),
    /// Every token is set up.
    Finished,
    /// A step failed; setup stops there.
    Failed,
}

/// Result of the action last performed.
#[derive(Debug, Clone, Copy, PartialEq, Eq, Structural)]
pub enum LoanTokenEvent {
    /// The token exists already.
    Exists,
    /// The token was not found, or the lookup failed.
    Missing,
    Succeeded,
    Failed,
}

/// Moves on to the token after `s.token`.
pub open spec fn advance_spec(s: LoanTokenSetup) -> (LoanTokenSetup, LoanTokenAction) {
    let next = LoanTokenSetup { token: (s.token + 1) as usize, total: s.total, phase: LoanTokenPhase::Check };
    if s.token + 1 >= s.total {
        (next, LoanTokenAction::Finished)
    } else {
        (next, LoanTokenAction::CheckExists((s.token + 1) as usize))
    }
}

/// Next state and action after `event`: an existing token is skipped, a
/// missing one is created, confirmed and minted, and any failure after the
/// lookup stops the setup.
pub open spec fn loan_token_step_spec(s: LoanTokenSetup, event: LoanTokenEvent) -> (LoanTokenSetup, LoanTokenAction) {
    match s.phase {
        LoanTokenPhase::Check => if event == LoanTokenEvent::Exists {
            advance_spec(s)
        } else {
            (LoanTokenSetup { phase: LoanTokenPhase::Create, ..s }, LoanTokenAction::Create(s.token))
        },
        LoanTokenPhase::Create => if event == LoanTokenEvent::Succeeded {
            (LoanTokenSetup { phase: LoanTokenPhase::Confirm, ..s }, LoanTokenAction::AwaitConfirmation(s.token))
        } else {
            (s, LoanTokenAction::Failed)
        },
        LoanTokenPhase::Confirm => if event == LoanTokenEvent::Succeeded {
            (LoanTokenSetup { phase: LoanTokenPhase::Mint, ..s }, LoanTokenAction::Mint(s.token, LOAN_TOKEN_MINT_AMOUNT))
        } else {
            (s, LoanTokenAction::Failed)
        },
        LoanTokenPhase::Mint => if event == LoanTokenEvent::Succeeded {
            advance_spec(s)
        } else {
            (s, LoanTokenAction::Failed)
        },
    }
}

impl LoanTokenSetup {
    /// Starts setting up `total` loan tokens.
    pub fn start(total: usize) -> (r: (LoanTokenSetup, LoanTokenAction))
        ensures
            r.0 == (LoanTokenSetup { token: 0, total, phase: LoanTokenPhase::Check }),
            r.1 == (if total == 0 { LoanTokenAction::Finished } else { LoanTokenAction::CheckExists(0) }),
    {
        let s = LoanTokenSetup { token: 0, total, phase: LoanTokenPhase::Check };
        if total == 0 {
            (s, LoanTokenAction::Finished)
        } else {
            (s, LoanTokenAction::CheckExists(0))
        }
    }

    fn advance(self) -> (r: (LoanTokenSetup, LoanTokenAction))
        requires
            self.token < self.total,
        ensures
            r == advance_spec(self),
    {
        let next = LoanTokenSetup { token: self.token + 1, total: self.total, phase: LoanTokenPhase::Check };
        if self.token + 1 >= self.total {
            (next, LoanTokenAction::Finished)
        } else {
            (next, LoanTokenAction::CheckExists(self.token + 1))
        }
    }

    /// The next state and action once `event` reports how the last action
    /// went; `self.token` is the token being set up.
    pub fn step(self, event: LoanTokenEvent) -> (r: (LoanTokenSetup, LoanTokenAction))
        requires
            self.token < self.total,
        ensures
            r == loan_token_step_spec(self, event),
    {
        match self.phase {
            LoanTokenPhase::Check => if event == LoanTokenEvent::Exists {
                self.advance()
            } else {
                (LoanTokenSetup { phase: LoanTokenPhase::Create, ..self }, LoanTokenAction::Create(self.token))
            },
            LoanTokenPhase::Create => if event == LoanTokenEvent::Succeeded {
                (LoanTokenSetup { phase: LoanTokenPhase::Confirm, ..self }, LoanTokenAction::AwaitConfirmation(self.token))
            } else {
                (self, LoanTokenAction::Failed)
            },
            LoanTokenPhase::Confirm => if event == LoanTokenEvent::Succeeded {
                (LoanTokenSetup { phase: LoanTokenPhase::Mint, ..self }, LoanTokenAction::Mint(self.token, LOAN_TOKEN_MINT_AMOUNT))
            } else {
                (self, LoanTokenAction::Failed)
            },
            LoanTokenPhase::Mint => if event == LoanTokenEvent::Succeeded {
                self.advance()
            } else {
                (self, LoanTokenAction::Failed)
            },
        }
    }
}

} // verus!
