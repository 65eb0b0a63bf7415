use vstd::prelude::*;
use vstd::string::*;

verus! {

/// Standard (padded) base64 of the UTF-8 encoding of the text.
pub uninterp spec fn base64_of(text: Seq<char>) -> Seq<char>;

/// Relies on base64's STANDARD engine `Engine::encode`: padded
/// standard-alphabet base64 of the input's UTF-8 bytes.
#[verifier::external_body]
fn base64_standard(input: &str) -> (r: String)
    ensures
        r@ == base64_of(input@),
{
    base64::Engine::encode(&base64::engine::general_purpose::STANDARD, input)
}

/// Decimal digit as text.
pub open spec fn digit_char(d: int) -> char {
    (('0' as int) + d) as char
}

/// Decimal text of a number, without leading zeros ("0" for zero).
pub open spec fn decimal_of(n: nat) -> Seq<char>
    decreases n,
{
    if n < 10 {
        seq![digit_char(n as int)]
    } else {
        decimal_of(n / 10) + seq![digit_char((n % 10) as int)]
    }
}

fn digit_text(d: u16) -> (r: &'static str)
    requires
        d < 10,
    ensures
        r@ == seq![digit_char(d as int)],
{
    proof {
        reveal_strlit("0");
        reveal_strlit("1");
        reveal_strlit("2");
        reveal_strlit("3");
        reveal_strlit("4");
        reveal_strlit("5");
        reveal_strlit("6");
        reveal_strlit("7");
        reveal_strlit("8");
        reveal_strlit("9");
    }
    let r = match d {
        0 => "0",
        1 => "1",
        2 => "2",
        3 => "3",
        4 => "4",
        5 => "5",
        6 => "6",
        7 => "7",
        8 => "8",
        _ => "9",
    };
    assert(r@ =~= seq![digit_char(d as int)]);
    r
}

/// Decimal text of a port number.
pub fn port_text(n: u16) -> (r: String)
    ensures
        r@ == decimal_of(n as nat),
    decreases n,
{
    if n < 10 {
        digit_text(n).to_string()
    } else {
        let head = port_text(n / 10);
        head.concat(digit_text(n % 10))
    }
}

/// Decimal text of a number.
pub fn nat_text(n: u64) -> (r: String)
    ensures
        r@ == decimal_of(n as nat),
    decreases n,
{
    if n < 10 {
        digit_text(n as u16).to_string()
    } else {
        let head = nat_text(n / 10);
        head.concat(digit_text((n % 10) as u16))
    }
}

/// Decimal text of a signed number, with a leading `-` when negative.
pub open spec fn int_decimal(n: int) -> Seq<char> {
    if n < 0 {
        "-"@ + decimal_of((-n) as nat)
    } else {
        decimal_of(n as nat)
    }
}

/// Decimal text of a signed number.
pub fn int_text(n: i64) -> (r: String)
    ensures
        r@ == int_decimal(n as int),
{
    if n < 0 {
        let m: u64 = (-(n as i128)) as u64;
        "-".to_string().concat(nat_text(m).as_str())
    } else {
        nat_text(n as u64)
    }
}

/// Connection parameters of the node's JSON-RPC interface: the endpoint URL
/// and the HTTP Basic credentials, base64-encoded.
#[derive(Debug)]
pub struct BitcoinRpc {
    pub url: String,
    pub auth: String,
}

impl BitcoinRpc {
    /// The client for `http://host:port`, authenticating as `user:pass`.
    pub fn new(host: &str, port: u16, user: &str, pass: &str) -> (r: BitcoinRpc)
        ensures
            r.url@ == "http://"@ + host@ + ":"@ + decimal_of(port as nat),
            r.auth@ == base64_of(user@ + ":"@ + pass@),
    {
        let cred = user.to_string().concat(":").concat(pass);
        let auth = base64_standard(cred.as_str());
        let url = "http://".to_string().concat(host).concat(":").concat(port_text(port).as_str());
        BitcoinRpc { url, auth }
    }
}

} // verus!
