use ain_evm::loan::{
    default_scheme_index, Client, LoanSchemeId, LoanTokenAction, LoanTokenEvent, LoanTokenSetup, Param, TokenIdSymbol,
    Value,
};
use ain_evm::web3::{decode_hex, MetachainWeb3RPCModule};

fn str_of(p: &Param) -> String {
    match p {
        Param::Value(Value::Str(s)) => s.clone(),
        _ => panic!("not a string"),
    }
}

#[test]
fn client_version_string() {
    let m = MetachainWeb3RPCModule::new();
    assert_eq!(m.client_version([4, 0, 12], "linux", "abc123"), "Metachain/v4.0.12/linux-abc123");
    assert_eq!(m.client_version([0, 105, 9], "macos", ""), "Metachain/v0.105.9/macos-");
}

#[test]
fn sha3_of_empty_and_abc() {
    let m = MetachainWeb3RPCModule::new();
    let e = m.sha3(&[]);
    assert_eq!(
        e,
        decode_hex(b"c5d2460186f7233c927e7db2dcc703c0e500b653ca82273b7bfad8045d85a470").unwrap()
    );
    let h = m.sha3(b"abc");
    assert_eq!(
        h,
        decode_hex(b"0x4e03657aea45a94fc7d47ba826c8d667c0d1e6e33a64a036ec44f58fa12d6c45").unwrap()
    );
}

#[test]
fn create_loan_scheme_request() {
    let r = Client::new().create_loan_scheme(150, "5", "MIN150");
    assert_eq!(r.method, "createloanscheme");
    assert_eq!(r.params.len(), 3);
    assert!(matches!(r.params[0], Param::Value(Value::UInt(150))));
    assert_eq!(str_of(&r.params[1]), "5");
    assert_eq!(str_of(&r.params[2]), "MIN150");
}

#[test]
fn collateral_and_loan_token_requests() {
    let c = Client::new();
    let r = c.set_collateral_tokens("DFI");
    assert_eq!(r.method, "setcollateraltoken");
    match &r.params[0] {
        Param::Object(fields) => {
            assert_eq!(fields[0].0, "token");
            assert!(matches!(fields[1].1, Value::UInt(1)));
            assert_eq!(fields[2].0, "fixedIntervalPriceId");
            assert!(matches!(&fields[2].1, Value::Str(s) if s == "DFI/USD"));
        }
        _ => panic!("not an object"),
    }
    let r = c.set_loan_token("TSLA");
    assert_eq!(r.method, "setloantoken");
    match &r.params[0] {
        Param::Object(fields) => {
            assert_eq!(fields.len(), 5);
            assert!(matches!(&fields[1].1, Value::Str(s) if s == "TSLA token"));
            assert!(matches!(fields[3].1, Value::Bool(true)));
        }
        _ => panic!("not an object"),
    }
    let r = c.take_loan("v1", "10@TSLA");
    assert_eq!(r.method, "takeloan");
    let r = c.loan_payback("v1", "addr", "1@TSLA");
    assert_eq!(r.method, "loanpayback");
    assert_eq!(c.get_loan_scheme("S").method, "getloanscheme");
    assert_eq!(str_of(&c.get_collateral_token("DFI").params[0]), "DFI");
    assert_eq!(c.list_loan_schemes().params.len(), 0);
    assert_eq!(c.get_loan_info().method, "getloaninfo");
}

#[test]
fn default_scheme_is_first_flagged() {
    assert_eq!(default_scheme_index(&vec![false, true, true]), Some(1));
    assert_eq!(default_scheme_index(&vec![false, false]), None);
    assert_eq!(default_scheme_index(&vec![]), None);
    let id = LoanSchemeId { id: "A".to_string() };
    let t = TokenIdSymbol { id: "0".to_string(), symbol: "DFI".to_string() };
    assert_eq!(id.id, "A");
    assert_eq!(t.symbol, "DFI");
}

#[test]
fn hex_decoding() {
    assert_eq!(decode_hex(b""), Some(vec![]));
    assert_eq!(decode_hex(b"0x"), Some(vec![]));
    assert_eq!(decode_hex(b"0x00fFa1"), Some(vec![0x00, 0xff, 0xa1]));
    assert_eq!(decode_hex(b"abc"), None);
    assert_eq!(decode_hex(b"0xzz"), None);
    assert_eq!(decode_hex(b"0X12"), None);
}

#[test]
fn loan_token_setup_steps() {
    let (s, a) = LoanTokenSetup::start(2);
    assert_eq!(a, LoanTokenAction::CheckExists(0));
    let (s, a) = s.step(LoanTokenEvent::Exists);
    assert_eq!(a, LoanTokenAction::CheckExists(1));
    let (s, a) = s.step(LoanTokenEvent::Missing);
    assert_eq!(a, LoanTokenAction::Create(1));
    let (s, a) = s.step(LoanTokenEvent::Succeeded);
    assert_eq!(a, LoanTokenAction::AwaitConfirmation(1));
    let (s, a) = s.step(LoanTokenEvent::Succeeded);
    assert_eq!(a, LoanTokenAction::Mint(1, 1000));
    let (_, a) = s.step(LoanTokenEvent::Succeeded);
    assert_eq!(a, LoanTokenAction::Finished);
    assert_eq!(LoanTokenSetup::start(0).1, LoanTokenAction::Finished);
    let (s, _) = LoanTokenSetup::start(3);
    let (s, _) = s.step(LoanTokenEvent::Missing);
    assert_eq!(s.step(LoanTokenEvent::Failed).1, LoanTokenAction::Failed);
}
