use vstd::prelude::*;
use vstd::string::*;
use crate::hash::{keccak256, keccak256_of};

verus! {

/// Character of a decimal digit.
pub open spec fn digit_char(d: nat) -> char {
    if d == 0 { '0' } else if d == 1 { '1' } else if d == 2 { '2' } else if d == 3 { '3' } else if d == 4 {
        '4'
    } else if d == 5 { '5' } else if d == 6 { '6' } else if d == 7 { '7' } else if d == 8 { '8' } else { '9' }
}

/// Decimal notation of `n`, without leading zeros.
pub open spec fn decimal(n: nat) -> Seq<char>
    decreases n,
{
    if n < 10 {
        seq![digit_char(n)]
    } else {
        decimal(n / 10) + seq![digit_char(n % 10)]
    }
}

/// The client version string: `Metachain/v<major>.<minor>.<patch>/<os>-<commit>`.
pub open spec fn client_version_spec(version: [u64; 3], os: Seq<char>, commit: Seq<char>) -> Seq<char> {
    seq!['M', 'e', 't', 'a', 'c', 'h', 'a', 'i', 'n', '/', 'v'] + decimal(version[0] as nat) + seq!['.']
        + decimal(version[1] as nat) + seq!['.'] + decimal(version[2] as nat) + seq!['/'] + os + seq!['-']
        + commit
}

fn digit_str(d: u64) -> (r: &'static str)
    requires
        d < 10,
    ensures
        r@ == seq![digit_char(d as nat)],
{
    proof {
        reveal_strlit("0");
        reveal_strlit("1");
        reveal_strlit("2");
        reveal_strlit("3");
        reveal_strlit("4");
        reveal_strlit("5");
        reveal_strlit("6");
        reveal_strlit("7");
        reveal_strlit("8");
        reveal_strlit("9");
    }
    if d == 0 { "0" } else if d == 1 { "1" } else if d == 2 { "2" } else if d == 3 { "3" } else if d == 4 {
        "4"
    } else if d == 5 { "5" } else if d == 6 { "6" } else if d == 7 { "7" } else if d == 8 { "8" } else { "9" }
}

/// Appends the decimal notation of `n`.
fn push_decimal(s: &mut String, n: u64)
    ensures
        final(s)@ == old(s)@ + decimal(n as nat),
    decreases n,
{
    if n >= 10 {
        push_decimal(s, n / 10);
    }
    s.append(digit_str(n % 10));
    assert(s@ =~= old(s)@ + decimal(n as nat));
}

/// Value of an ASCII hexadecimal digit, either case.
pub open spec fn hex_digit(c: u8) -> Option<u8> {
    if 48 <= c <= 57 {
        Some((c - 48) as u8)
    } else if 97 <= c <= 102 {
        Some((c - 87) as u8)
    } else if 65 <= c <= 70 {
        Some((c - 55) as u8)
    } else {
        None
    }
}

/// Bytes written as pairs of hexadecimal digits, high digit first; `None`
/// on an odd length or a character that is no digit.
pub open spec fn hex_body(t: Seq<u8>) -> Option<Seq<u8>>
    decreases t.len(),
{
    if t.len() == 0 {
        Some(Seq::empty())
    } else if t.len() < 2 {
        None
    } else {
        match (hex_digit(t[0]), hex_digit(t[1]), hex_body(t.subrange(2, t.len() as int))) {
            (Some(h), Some(l), Some(rest)) => Some(seq![(h * 16 + l) as u8] + rest),
            _ => None,
        }
    }
}

/// Hexadecimal bytes with an optional `0x` prefix.
pub open spec fn hex_decode_spec(t: Seq<u8>) -> Option<Seq<u8>> {
    if t.len() >= 2 && t[0] == 48 && t[1] == 120 {
        hex_body(t.subrange(2, t.len() as int))
    } else {
        hex_body(t)
    }
}

fn hex_digit_of(c: u8) -> (r: Option<u8>)
    ensures
        r == hex_digit(c),
{
    if 48 <= c && c <= 57 {
        Some(c - 48)
    } else if 97 <= c && c <= 102 {
        Some(c - 87)
    } else if 65 <= c && c <= 70 {
        Some(c - 55)
    } else {
        None
    }
}

/// Decodes hexadecimal text, as sent for a byte-string parameter.
pub fn decode_hex(text: &[u8]) -> (r: Option<Vec<u8>>)
    ensures
        r matches Some(v) ==> hex_decode_spec(text@) == Some(v@),
        r is None ==> hex_decode_spec(text@) is None,
{
    let len = text.len();
    let start: usize = if len >= 2 && text[0] == 48 && text[1] == 120 { 2 } else { 0 };
    assert(hex_decode_spec(text@) == hex_body(text@.subrange(start as int, len as int))) by {
        assert(text@.subrange(0, len as int) =~= text@);
    }
    let mut out: Vec<u8> = Vec::new();
    let mut i: usize = start;
    while i < len
        invariant
            start <= i <= len,
            len == text@.len(),
            hex_decode_spec(text@) == hex_body(text@.subrange(start as int, len as int)),
            hex_body(text@.subrange(start as int, len as int)) == match hex_body(text@.subrange(i as int, len as int)) {
                Some(rest) => Some(out@ + rest),
                None => None::<Seq<u8>>,
            },
        decreases len - i,
    {
        let ghost t = text@.subrange(i as int, len as int);
        if len - i < 2 {
            assert(t.len() == 1);
            assert(hex_body(t) is None);
            return None;
        }
        assert(t[0] == text@[i as int] && t[1] == text@[i + 1]);
        assert(t.subrange(2, t.len() as int) =~= text@.subrange(i + 2, len as int));
        let h = match hex_digit_of(text[i]) {
            Some(d) => d,
            None => {
                return None;
            },
        };
        let l = match hex_digit_of(text[i + 1]) {
            Some(d) => d,
            None => {
                return None;
            },
        };
        let ghost before = out@;
        out.push(h * 16 + l);
        proof {
            match hex_body(text@.subrange(i + 2, len as int)) {
                Some(rest) => {
                    assert(before + (seq![(h * 16 + l) as u8] + rest) =~= out@ + rest);
                },
                None => {},
            }
        }
        i = i + 2;
    }
    assert(text@.subrange(len as int, len as int) =~= Seq::<u8>::empty());
    assert(out@ + Seq::<u8>::empty() =~= out@);
    Some(out)
}

/// Handlers of the `web3` namespace.
#[derive(Debug, Default)]
pub struct MetachainWeb3RPCModule {}

impl MetachainWeb3RPCModule {
    pub fn new() -> (r: MetachainWeb3RPCModule) {
        MetachainWeb3RPCModule {}
    }

    /// The client version string for the node version `version`, the
    /// operating system `os` and the source revision `commit`.
    pub fn client_version(&self, version: [u64; 3], os: &str, commit: &str) -> (r: String)
        ensures
            r@ == client_version_spec(version, os@, commit@),
    {
        proof {
            reveal_strlit("Metachain/v");
            reveal_strlit(".");
            reveal_strlit("/");
            reveal_strlit("-");
        }
        let mut s = String::from_str("Metachain/v");
        push_decimal(&mut s, version[0]);
        s.append(".");
        push_decimal(&mut s, version[1]);
        s.append(".");
        push_decimal(&mut s, version[2]);
        s.append("/");
        s.append(os);
        s.append("-");
        s.append(commit);
        s
    }

    /// Keccak-256 digest of `input`, 32 bytes.
    pub fn sha3(&self, input: &[u8]) -> (r: Vec<u8>)
        ensures
            r@ == keccak256_of(input@),
            r@.len() == 32,
    {
        keccak256(input)
    }
}

} // verus!
