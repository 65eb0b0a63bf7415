use txradar::text::{lines, parse_confidence, parse_tag_csv, parse_u16, resolve_credentials, trim, CredentialSource};

fn c(s: &str) -> Vec<char> {
    s.chars().collect()
}

fn s(v: &[char]) -> String {
    v.iter().collect()
}

#[test]
fn trim_and_lines() {
    assert_eq!(s(&trim(&c("  a b \t\r"))), "a b");
    assert_eq!(s(&trim(&c("   "))), "");
    let l = lines(&c("x\r\ny\n\nz"));
    let l: Vec<String> = l.iter().map(|v| s(v)).collect();
    assert_eq!(l, vec!["x", "y", "", "z"]);
    assert_eq!(lines(&c("a\n")).len(), 1);
    assert_eq!(lines(&c("")).len(), 0);
}

#[test]
fn ports_parse_like_std() {
    assert_eq!(parse_u16(&c("8332")), Some(8332));
    assert_eq!(parse_u16(&c("+18443")), Some(18443));
    assert_eq!(parse_u16(&c("65536")), None);
    assert_eq!(parse_u16(&c("")), None);
    assert_eq!(parse_u16(&c("12a")), None);
}

#[test]
fn confidence_in_basis_points() {
    assert_eq!(parse_confidence(&c("0.95")), 9500);
    assert_eq!(parse_confidence(&c("1")), 10_000);
    assert_eq!(parse_confidence(&c(".5")), 5000);
    assert_eq!(parse_confidence(&c("0.123456")), 1234);
    assert_eq!(parse_confidence(&c("high")), 5000);
    assert_eq!(parse_confidence(&c("")), 5000);
}

#[test]
fn tag_csv_rows() {
    let text = "address,entity,entity_type,confidence,source\n\
                bc1qa, Binance ,exchange,0.9,manual\n\
                short,row\n\
                1Abc,Kraken,exchange,oops\n";
    let rows = parse_tag_csv(&c(text));
    assert_eq!(rows.len(), 2);
    assert_eq!(s(&rows[0].address), "bc1qa");
    assert_eq!(s(&rows[0].entity), "Binance");
    assert_eq!(rows[0].confidence, 9000);
    assert_eq!(rows[0].source.as_ref().map(|v| s(v)), Some("manual".to_string()));
    assert_eq!(rows[1].confidence, 5000);
    assert!(rows[1].source.is_none());
}

#[test]
fn credentials_in_order() {
    let both = resolve_credentials(&Some(c("u")), &Some(c("p")), &Some(c("ck:pw")), &None);
    assert_eq!(both.source, CredentialSource::Config);
    assert_eq!(s(&both.user), "u");

    let cookie = resolve_credentials(&Some(c("u")), &None, &Some(c("__cookie__:secret\n")), &None);
    assert_eq!(cookie.source, CredentialSource::Cookie);
    assert_eq!(s(&cookie.user), "__cookie__");
    assert_eq!(s(&cookie.password), "secret");

    let conf = resolve_credentials(&None, &None, &Some(c("nocolon")), &Some(c("rpcuser=alice\nrpcpassword=pw\n")));
    assert_eq!(conf.source, CredentialSource::ConfFile);
    assert_eq!(s(&conf.user), "alice");
    assert_eq!(conf.port, None);

    let port = resolve_credentials(&None, &None, &None, &Some(c("rpcpassword=pw\nrpcport=18332\nrpcuser=late\n")));
    assert_eq!(port.source, CredentialSource::ConfFile);
    assert_eq!(s(&port.user), "late");
    assert_eq!(s(&port.password), "pw");
    assert_eq!(port.port, Some(18332));

    let first = resolve_credentials(&None, &None, &None, &Some(c("rpcport=1\nrpcuser=u\nrpcpassword=p\n")));
    assert_eq!(first.source, CredentialSource::ConfFile);
    assert_eq!(s(&first.user), "u");
    assert_eq!(s(&first.password), "p");
    assert_eq!(first.port, Some(1));

    let port_only = resolve_credentials(&None, &None, &None, &Some(c("rpcport=9\n")));
    assert_eq!(port_only.source, CredentialSource::Fallback);
    assert_eq!(s(&port_only.password), "bitcoinrpc");

    let none = resolve_credentials(&None, &None, &None, &Some(c("rpcuser=only\n")));
    assert_eq!(none.source, CredentialSource::Fallback);
    assert_eq!(s(&none.user), "bitcoinrpc");
    assert_eq!(s(&none.password), "bitcoinrpc");
}
