use vstd::prelude::*;

verus! {

/// Whitespace that trimming removes.
pub open spec fn is_ws(c: char) -> bool {
    c == ' ' || c == '\t' || c == '\n' || c == '\r' || c == '\x0b' || c == '\x0c'
}

/// `s` without leading whitespace.
pub open spec fn trim_start(s: Seq<char>) -> Seq<char>
    decreases s.len(),
{
    if s.len() > 0 && is_ws(s[0]) {
        trim_start(s.drop_first())
    } else {
        s
    }
}

/// `s` without trailing whitespace.
pub open spec fn trim_end(s: Seq<char>) -> Seq<char>
    decreases s.len(),
{
    if s.len() > 0 && is_ws(s.last()) {
        trim_end(s.drop_last())
    } else {
        s
    }
}

/// `s` without leading and trailing whitespace.
pub open spec fn trimmed(s: Seq<char>) -> Seq<char> {
    trim_end(trim_start(s))
}

fn is_ws_char(c: char) -> (r: bool)
    ensures
        r == is_ws(c),
{
    c == ' ' || c == '\t' || c == '\n' || c == '\r' || c == '\x0b' || c == '\x0c'
}

fn slice_of(s: &Vec<char>, from: usize, to: usize) -> (r: Vec<char>)
    requires
        from <= to <= s@.len(),
    ensures
        r@ == s@.subrange(from as int, to as int),
{
    let mut r: Vec<char> = Vec::new();
    let mut i: usize = from;
    while i < to
        invariant
            from <= i <= to,
            to <= s@.len(),
            r@ == s@.subrange(from as int, i as int),
        decreases to - i,
    {
        r.push(s[i]);
        proof {
            assert(r@ =~= s@.subrange(from as int, i as int + 1));
        }
        i = i + 1;
    }
    r
}

proof fn lemma_trim_start_skip(s: Seq<char>, i: int)
    requires
        0 <= i <= s.len(),
        forall|k: int| 0 <= k < i ==> is_ws(#[trigger] s[k]),
    ensures
        trim_start(s) == trim_start(s.subrange(i, s.len() as int)),
    decreases i,
{
    if i > 0 {
        assert(s.drop_first().subrange(i - 1, s.drop_first().len() as int) =~= s.subrange(i, s.len() as int));
        lemma_trim_start_skip(s.drop_first(), i - 1);
    } else {
        assert(s.subrange(0, s.len() as int) =~= s);
    }
}

proof fn lemma_trim_end_skip(s: Seq<char>, j: int)
    requires
        0 <= j <= s.len(),
        forall|k: int| j <= k < s.len() ==> is_ws(#[trigger] s[k]),
    ensures
        trim_end(s) == trim_end(s.subrange(0, j)),
    decreases s.len() - j,
{
    if j < s.len() {
        assert(s.drop_last().subrange(0, j) =~= s.subrange(0, j));
        lemma_trim_end_skip(s.drop_last(), j);
    } else {
        assert(s.subrange(0, j) =~= s);
    }
}

/// `s` without leading and trailing whitespace.
pub fn trim(s: &Vec<char>) -> (r: Vec<char>)
    ensures
        r@ == trimmed(s@),
{
    let mut i: usize = 0;
    while i < s.len() && is_ws_char(s[i])
        invariant
            i <= s@.len(),
            forall|k: int| 0 <= k < i ==> is_ws(#[trigger] s@[k]),
        decreases s@.len() - i,
    {
        i = i + 1;
    }
    let mut j: usize = s.len();
    while j > i && is_ws_char(s[j - 1])
        invariant
            i <= j <= s@.len(),
            forall|k: int| j <= k < s@.len() ==> is_ws(#[trigger] s@[k]),
        decreases j,
    {
        j = j - 1;
    }
    proof {
        lemma_trim_start_skip(s@, i as int);
        let t = s@.subrange(i as int, s@.len() as int);
        if i < s@.len() {
            assert(!is_ws(t[0]));
        }
        assert(trim_start(t) == t);
        assert forall|k: int| (j - i) <= k < t.len() implies is_ws(#[trigger] t[k]) by {
            assert(t[k] == s@[k + i]);
        }
        lemma_trim_end_skip(t, j - i);
        let u = t.subrange(0, j - i);
        assert(u =~= s@.subrange(i as int, j as int));
        if j > i {
            assert(!is_ws(u.last()));
        }
        assert(trim_end(u) == u);
    }
    slice_of(s, i, j)
}

/// The text after `prefix`, when `s` starts with it.
pub open spec fn after_prefix(s: Seq<char>, prefix: Seq<char>) -> Option<Seq<char>> {
    if prefix.len() <= s.len() && s.subrange(0, prefix.len() as int) == prefix {
        Some(s.subrange(prefix.len() as int, s.len() as int))
    } else {
        None
    }
}

/// The text after `prefix`, when `s` starts with it.
pub fn strip_prefix(s: &Vec<char>, prefix: &Vec<char>) -> (r: Option<Vec<char>>)
    ensures
        match after_prefix(s@, prefix@) {
            Some(t) => r.is_some() && r.unwrap()@ == t,
            None => r.is_none(),
        },
{
    if prefix.len() > s.len() {
        return None;
    }
    let mut i: usize = 0;
    while i < prefix.len()
        invariant
            i <= prefix@.len() <= s@.len(),
            forall|k: int| 0 <= k < i ==> s@[k] == prefix@[k],
        decreases prefix@.len() - i,
    {
        if s[i] != prefix[i] {
            proof {
                assert(s@.subrange(0, prefix@.len() as int)[i as int] != prefix@[i as int]);
            }
            return None;
        }
        i = i + 1;
    }
    assert(s@.subrange(0, prefix@.len() as int) =~= prefix@);
    Some(slice_of(s, prefix.len(), s.len()))
}

/// Index of the first `c` in `s`, or the length of `s` when there is none.
pub open spec fn first_index(s: Seq<char>, c: char) -> nat
    decreases s.len(),
{
    if s.len() == 0 {
        0
    } else if s[0] == c {
        0
    } else {
        1 + first_index(s.drop_first(), c)
    }
}

proof fn lemma_first_index(s: Seq<char>, c: char, w: int)
    requires
        0 <= w <= s.len(),
        w < s.len() ==> s[w] == c,
        forall|k: int| 0 <= k < w ==> s[k] != c,
    ensures
        first_index(s, c) == w,
    decreases s.len(),
{
    if s.len() > 0 && w > 0 {
        assert forall|k: int| 0 <= k < w - 1 implies s.drop_first()[k] != c by {
            assert(s[k + 1] != c);
        }
        lemma_first_index(s.drop_first(), c, w - 1);
    }
}

fn find_char(s: &Vec<char>, c: char, from: usize) -> (r: Option<usize>)
    requires
        from <= s@.len(),
    ensures
        match r {
            Some(i) => from <= i < s@.len() && s@[i as int] == c && forall|k: int| from <= k < i ==> s@[k] != c,
            None => forall|k: int| from <= k < s@.len() ==> s@[k] != c,
        },
{
    let mut i: usize = from;
    while i < s.len()
        invariant
            from <= i <= s@.len(),
            forall|k: int| from <= k < i ==> s@[k] != c,
        decreases s@.len() - i,
    {
        if s[i] == c {
            return Some(i);
        }
        i = i + 1;
    }
    None
}

/// A line without the `\r` that ends it, if any.
pub open spec fn without_cr(line: Seq<char>) -> Seq<char> {
    if line.len() > 0 && line.last() == '\r' {
        line.drop_last()
    } else {
        line
    }
}

/// The lines of a text: split at `\n`, a `\r` before the `\n` dropped; no
/// line after a final `\n`.
pub open spec fn split_lines(s: Seq<char>) -> Seq<Seq<char>>
    decreases s.len(),
{
    let i = first_index(s, '\n') as int;
    if i >= s.len() {
        if s.len() == 0 {
            Seq::empty()
        } else {
            seq![s]
        }
    } else {
        seq![without_cr(s.subrange(0, i as int))] + split_lines(s.subrange(i + 1 as int, s.len() as int))
    }
}

/// The lines of a text, as `str::lines` splits them.
pub fn lines(s: &Vec<char>) -> (r: Vec<Vec<char>>)
    ensures
        r@.map_values(|l: Vec<char>| l@) == split_lines(s@),
{
    let mut r: Vec<Vec<char>> = Vec::new();
    let mut start: usize = 0;
    proof {
        assert(s@.subrange(0, s@.len() as int) =~= s@);
        assert(r@.map_values(|l: Vec<char>| l@) =~= Seq::<Seq<char>>::empty());
        assert(Seq::<Seq<char>>::empty() + split_lines(s@) =~= split_lines(s@));
    }
    while start < s.len()
        invariant
            start <= s@.len(),
            r@.map_values(|l: Vec<char>| l@) + split_lines(s@.subrange(start as int, s@.len() as int)) == split_lines(s@),
        decreases s@.len() - start,
    {
        let ghost rest = s@.subrange(start as int, s@.len() as int);
        let ghost before = r@.map_values(|l: Vec<char>| l@);
        match find_char(s, '\n', start) {
            Some(i) => {
                let mut end = i;
                if end > start && s[end - 1] == '\r' {
                    end = end - 1;
                }
                let line = slice_of(s, start, end);
                proof {
                    let w = (i - start) as int;
                    assert forall|k: int| 0 <= k < w implies rest[k] != '\n' by {
                        assert(rest[k] == s@[k + start]);
                    }
                    lemma_first_index(rest, '\n', w);
                    assert(rest.subrange(w + 1, rest.len() as int) =~= s@.subrange(i + 1, s@.len() as int));
                    assert(rest.subrange(0, w) =~= s@.subrange(start as int, i as int));
                    assert(without_cr(rest.subrange(0, w)) =~= line@);
                }
                r.push(line);
                proof {
                    assert(r@.map_values(|l: Vec<char>| l@) =~= before.push(line@));
                    assert(before.push(line@) + split_lines(s@.subrange(i + 1, s@.len() as int)) =~= before + (seq![line@] + split_lines(s@.subrange(i + 1, s@.len() as int))));
                }
                start = i + 1;
            },
            None => {
                let line = slice_of(s, start, s.len());
                proof {
                    assert forall|k: int| 0 <= k < rest.len() implies rest[k] != '\n' by {
                        assert(rest[k] == s@[k + start]);
                    }
                    lemma_first_index(rest, '\n', rest.len() as int);
                    assert(line@ =~= rest);
                }
                r.push(line);
                proof {
                    assert(r@.map_values(|l: Vec<char>| l@) =~= before.push(line@));
                    assert(s@.subrange(s@.len() as int, s@.len() as int) =~= Seq::<char>::empty());
                    assert(split_lines(Seq::<char>::empty()) =~= Seq::<Seq<char>>::empty());
                    assert(before.push(line@) + Seq::<Seq<char>>::empty() =~= before + seq![rest]);
                }
                start = s.len();
            },
        }
    }
    proof {
        assert(s@.subrange(start as int, s@.len() as int) =~= Seq::<char>::empty());
        assert(r@.map_values(|l: Vec<char>| l@) + Seq::<Seq<char>>::empty() =~= r@.map_values(|l: Vec<char>| l@));
    }
    r
}

/// Whether every character is an ASCII digit.
pub open spec fn all_digits(s: Seq<char>) -> bool {
    forall|i: int| 0 <= i < s.len() ==> '0' <= #[trigger] s[i] <= '9'
}

/// Decimal value of a digit string.
pub open spec fn digits_value(s: Seq<char>) -> int
    decreases s.len(),
{
    if s.len() == 0 {
        0
    } else {
        digits_value(s.drop_last()) * 10 + (s.last() as int - '0' as int)
    }
}

/// Value of a digit string, saturating at `cap`.
fn digits_capped(s: &Vec<char>, from: usize, to: usize, cap: u64) -> (r: u64)
    requires
        from <= to <= s@.len(),
        all_digits(s@.subrange(from as int, to as int)),
        9 <= cap < 0x1000_0000_0000_0000,
    ensures
        r == if digits_value(s@.subrange(from as int, to as int)) > cap { cap as int } else { digits_value(s@.subrange(from as int, to as int)) },
{
    let mut v: u64 = 0;
    let mut i: usize = from;
    let mut over = false;
    while i < to
        invariant
            from <= i <= to <= s@.len(),
            all_digits(s@.subrange(from as int, to as int)),
            9 <= cap < 0x1000_0000_0000_0000,
            over ==> digits_value(s@.subrange(from as int, i as int)) > cap,
            !over ==> v == digits_value(s@.subrange(from as int, i as int)) && v <= cap,
        decreases to - i,
    {
        let ghost pre = s@.subrange(from as int, i as int);
        proof {
            assert(s@.subrange(from as int, i as int + 1).drop_last() =~= pre);
            assert(s@.subrange(from as int, to as int)[i - from] == s@[i as int]);
            lemma_digits_nonneg(pre);
        }
        let d = (s[i] as u32 - '0' as u32) as u64;
        if !over {
            if v > (cap - d) / 10 {
                over = true;
                proof {
                    assert(v * 10 + d > cap) by (nonlinear_arith)
                        requires
                            v > (cap - d) / 10,
                            d <= 9,
                            d <= cap || true,
                    ;
                }
            } else {
                proof {
                    assert(v * 10 + d <= cap) by (nonlinear_arith)
                        requires
                            v <= (cap - d) / 10,
                            0 <= d <= cap,
                    ;
                }
                v = v * 10 + d;
            }
        } else {
            proof {
                assert(digits_value(pre) * 10 + d > cap) by (nonlinear_arith)
                    requires
                        digits_value(pre) > cap,
                        d >= 0,
                ;
            }
        }
        i = i + 1;
    }
    if over { cap } else { v }
}

proof fn lemma_digits_nonneg(s: Seq<char>)
    requires
        all_digits(s),
    ensures
        digits_value(s) >= 0,
    decreases s.len(),
{
    if s.len() > 0 {
        assert(all_digits(s.drop_last()));
        lemma_digits_nonneg(s.drop_last());
        assert('0' <= s[s.len() - 1] <= '9');
    }
}

/// `u16::from_str`: an optional `+`, then one or more digits, at most 65535.
pub open spec fn parse_u16_spec(s: Seq<char>) -> Option<u16> {
    let d = if s.len() > 0 && s[0] == '+' { s.drop_first() } else { s };
    if d.len() > 0 && all_digits(d) && digits_value(d) <= 65535 {
        Some(digits_value(d) as u16)
    } else {
        None
    }
}

/// Parse a port number as `u16::from_str` does.
pub fn parse_u16(s: &Vec<char>) -> (r: Option<u16>)
    ensures
        r == parse_u16_spec(s@),
{
    let from: usize = if s.len() > 0 && s[0] == '+' { 1 } else { 0 };
    let ghost d = if s@.len() > 0 && s@[0] == '+' { s@.drop_first() } else { s@ };
    proof {
        assert(d =~= s@.subrange(from as int, s@.len() as int));
    }
    if from >= s.len() {
        return None;
    }
    let mut i: usize = from;
    while i < s.len()
        invariant
            from <= i <= s@.len(),
            from <= 1,
            d == s@.subrange(from as int, s@.len() as int),
            d == (if s@.len() > 0 && s@[0] == '+' { s@.drop_first() } else { s@ }),
            forall|k: int| from <= k < i ==> '0' <= #[trigger] s@[k] <= '9',
        decreases s@.len() - i,
    {
        if !('0' <= s[i] && s[i] <= '9') {
            proof {
                assert(d[i - from] == s@[i as int]);
                assert(!('0' <= d[i - from] <= '9'));
                assert(!all_digits(d));
                assert(d == (if s@.len() > 0 && s@[0] == '+' { s@.drop_first() } else { s@ }));
                assert(parse_u16_spec(s@).is_none());
            }
            return None;
        }
        i = i + 1;
    }
    assert(all_digits(d)) by {
        assert forall|k: int| 0 <= k < d.len() implies '0' <= #[trigger] d[k] <= '9' by {
            assert(d[k] == s@[k + from]);
        }
    }
    let v = digits_capped(s, from, s.len(), 65_536);
    if v > 65_535 {
        None
    } else {
        Some(v as u16)
    }
}

/// Where RPC credentials came from.
#[derive(Clone, Copy, Debug, PartialEq, Eq, Structural)]
pub enum CredentialSource {
    Config,
    Cookie,
    ConfFile,
    Fallback,
}

/// RPC credentials, with the port that bitcoin.conf may set.
#[derive(Debug)]
pub struct Credentials {
    pub user: Vec<char>,
    pub password: Vec<char>,
    pub port: Option<u16>,
    pub source: CredentialSource,
}

/// The `user:password` pair of a cookie file.
pub open spec fn cookie_pair(c: Seq<char>) -> Option<(Seq<char>, Seq<char>)> {
    let t = trimmed(c);
    let i = first_index(t, ':') as int;
    if i < t.len() {
        Some((t.subrange(0, i), t.subrange(i + 1, t.len() as int)))
    } else {
        None
    }
}

pub open spec fn user_key() -> Seq<char> {
    seq!['r', 'p', 'c', 'u', 's', 'e', 'r', '=']
}

pub open spec fn password_key() -> Seq<char> {
    seq!['r', 'p', 'c', 'p', 'a', 's', 's', 'w', 'o', 'r', 'd', '=']
}

pub open spec fn port_key() -> Seq<char> {
    seq!['r', 'p', 'c', 'p', 'o', 'r', 't', '=']
}

pub open spec fn fallback_name() -> Seq<char> {
    seq!['b', 'i', 't', 'c', 'o', 'i', 'n', 'r', 'p', 'c']
}

/// What bitcoin.conf's lines give, scanning from `user`, `pass` and `port`:
/// the last `rpcuser=` and `rpcpassword=` values, and the first `rpcport=`
/// value that is a valid port.
pub open spec fn conf_scan(
    lines: Seq<Seq<char>>,
    user: Option<Seq<char>>,
    pass: Option<Seq<char>>,
    port: Option<u16>,
) -> (Option<Seq<char>>, Option<Seq<char>>, Option<u16>)
    decreases lines.len(),
{
    if lines.len() == 0 {
        (user, pass, port)
    } else {
        let l = trimmed(lines[0]);
        let user2 = match after_prefix(l, user_key()) {
            Some(v) => Some(v),
            None => user,
        };
        let pass2 = match after_prefix(l, password_key()) {
            Some(v) => Some(v),
            None => pass,
        };
        let port2 = if port.is_none() && after_prefix(l, port_key()).is_some() {
            parse_u16_spec(after_prefix(l, port_key()).unwrap())
        } else {
            port
        };
        conf_scan(lines.drop_first(), user2, pass2, port2)
    }
}

/// Credentials in order of preference: both given in the configuration; the
/// cookie file's `user:password`; bitcoin.conf's `rpcuser` and `rpcpassword`
/// (when it has both; its `rpcport`, if any, sets the port);
/// `bitcoinrpc`/`bitcoinrpc`.
pub open spec fn credentials_spec(
    user: Option<Seq<char>>,
    pass: Option<Seq<char>>,
    cookie: Option<Seq<char>>,
    conf: Option<Seq<char>>,
) -> (Seq<char>, Seq<char>, Option<u16>, CredentialSource) {
    if user.is_some() && pass.is_some() {
        (user.unwrap(), pass.unwrap(), None, CredentialSource::Config)
    } else if cookie.is_some() && cookie_pair(cookie.unwrap()).is_some() {
        (cookie_pair(cookie.unwrap()).unwrap().0, cookie_pair(cookie.unwrap()).unwrap().1, None, CredentialSource::Cookie)
    } else if conf.is_some() && conf_scan(split_lines(conf.unwrap()), None, None, None).0.is_some()
        && conf_scan(split_lines(conf.unwrap()), None, None, None).1.is_some() {
        let c = conf_scan(split_lines(conf.unwrap()), None, None, None);
        (c.0.unwrap(), c.1.unwrap(), c.2, CredentialSource::ConfFile)
    } else {
        (fallback_name(), fallback_name(), None, CredentialSource::Fallback)
    }
}

fn copy_chars(s: &Vec<char>) -> (r: Vec<char>)
    ensures
        r@ == s@,
{
    slice_of(s, 0, s.len())
}

fn fallback() -> (r: Vec<char>)
    ensures
        r@ == fallback_name(),
{
    let r = vec!['b', 'i', 't', 'c', 'o', 'i', 'n', 'r', 'p', 'c'];
    assert(r@ =~= fallback_name());
    r
}

fn split_cookie(c: &Vec<char>) -> (r: Option<(Vec<char>, Vec<char>)>)
    ensures
        match cookie_pair(c@) {
            Some(p) => r.is_some() && r.unwrap().0@ == p.0 && r.unwrap().1@ == p.1,
            None => r.is_none(),
        },
{
    let t = trim(c);
    match find_char(&t, ':', 0) {
        Some(i) => {
            proof {
                lemma_first_index(t@, ':', i as int);
            }
            Some((slice_of(&t, 0, i), slice_of(&t, i + 1, t.len())))
        },
        None => {
            proof {
                lemma_first_index(t@, ':', t@.len() as int);
            }
            None
        },
    }
}

fn scan_conf(conf: &Vec<char>) -> (r: (Option<u16>, Option<Vec<char>>, Option<Vec<char>>))
    ensures
        ({
            let c = conf_scan(split_lines(conf@), None, None, None);
            &&& r.0 == c.2
            &&& match r.1 { Some(u) => c.0 == Some(u@), None => c.0.is_none() }
            &&& match r.2 { Some(p) => c.1 == Some(p@), None => c.1.is_none() }
        }),
{
    let ls = lines(conf);
    let ghost all = ls@.map_values(|l: Vec<char>| l@);
    let ukey = vec!['r', 'p', 'c', 'u', 's', 'e', 'r', '='];
    let pkey = vec!['r', 'p', 'c', 'p', 'a', 's', 's', 'w', 'o', 'r', 'd', '='];
    let portkey = vec!['r', 'p', 'c', 'p', 'o', 'r', 't', '='];
    assert(ukey@ =~= user_key());
    assert(pkey@ =~= password_key());
    assert(portkey@ =~= port_key());
    let mut user: Option<Vec<char>> = None;
    let mut pass: Option<Vec<char>> = None;
    let mut port: Option<u16> = None;
    let mut i: usize = 0;
    assert(all.subrange(0, all.len() as int) =~= all);
    while i < ls.len()
        invariant
            i <= ls@.len(),
            all == ls@.map_values(|l: Vec<char>| l@),
            all == split_lines(conf@),
            ukey@ == user_key(),
            pkey@ == password_key(),
            portkey@ == port_key(),
            conf_scan(all, None, None, None) == conf_scan(
                all.subrange(i as int, all.len() as int),
                match user { Some(u) => Some(u@), None => None },
                match pass { Some(p) => Some(p@), None => None },
                port,
            ),
        decreases ls@.len() - i,
    {
        let ghost rest = all.subrange(i as int, all.len() as int);
        proof {
            assert(rest[0] == ls@[i as int]@);
            assert(rest.drop_first() =~= all.subrange(i as int + 1, all.len() as int));
        }
        let l = trim(&ls[i]);
        match strip_prefix(&l, &ukey) {
            Some(v) => {
                user = Some(v);
            },
            None => {},
        }
        match strip_prefix(&l, &pkey) {
            Some(v) => {
                pass = Some(v);
            },
            None => {},
        }
        if port.is_none() {
            match strip_prefix(&l, &portkey) {
                Some(v) => {
                    port = parse_u16(&v);
                },
                None => {},
            }
        }
        i = i + 1;
    }
    proof {
        assert(all.subrange(i as int, all.len() as int) =~= Seq::<Seq<char>>::empty());
    }
    (port, user, pass)
}

/// Resolve RPC credentials: the configured user and password when both are
/// given, else the cookie file's `user:password`, else bitcoin.conf's
/// `rpcuser`/`rpcpassword` when it has both (its `rpcport` sets the port),
/// else `bitcoinrpc`/`bitcoinrpc`.
pub fn resolve_credentials(
    user: &Option<Vec<char>>,
    pass: &Option<Vec<char>>,
    cookie: &Option<Vec<char>>,
    conf: &Option<Vec<char>>,
) -> (r: Credentials)
    ensures
        ({
            let spec = credentials_spec(
                match user { Some(u) => Some(u@), None => None },
                match pass { Some(p) => Some(p@), None => None },
                match cookie { Some(c) => Some(c@), None => None },
                match conf { Some(c) => Some(c@), None => None },
            );
            r.user@ == spec.0 && r.password@ == spec.1 && r.port == spec.2 && r.source == spec.3
        }),
{
    if let (Some(u), Some(p)) = (user, pass) {
        return Credentials { user: copy_chars(u), password: copy_chars(p), port: None, source: CredentialSource::Config };
    }
    if let Some(c) = cookie {
        if let Some((u, p)) = split_cookie(c) {
            return Credentials { user: u, password: p, port: None, source: CredentialSource::Cookie };
        }
    }
    if let Some(c) = conf {
        let (port, u, p) = scan_conf(c);
        if let (Some(u), Some(p)) = (u, p) {
            return Credentials { user: u, password: p, port, source: CredentialSource::ConfFile };
        }
    }
    Credentials { user: fallback(), password: fallback(), port: None, source: CredentialSource::Fallback }
}

/// `s` split at its first `n - 1` commas (as `splitn(n, ',')`).
pub open spec fn split_commas(s: Seq<char>, n: nat) -> Seq<Seq<char>>
    decreases s.len(),
{
    let i = first_index(s, ',') as int;
    if n <= 1 || i >= s.len() {
        seq![s]
    } else {
        seq![s.subrange(0, i)] + split_commas(s.subrange(i + 1, s.len() as int), (n - 1) as nat)
    }
}

fn split_fields(s: &Vec<char>, n: usize) -> (r: Vec<Vec<char>>)
    ensures
        r@.map_values(|f: Vec<char>| f@) == split_commas(s@, n as nat),
        r@.len() >= 1,
{
    let mut r: Vec<Vec<char>> = Vec::new();
    let mut start: usize = 0;
    let mut left: usize = n;
    let len: usize = s.len();
    proof {
        assert(s@.subrange(0, s@.len() as int) =~= s@);
        assert(Seq::<Seq<char>>::empty() + split_commas(s@, n as nat) =~= split_commas(s@, n as nat));
    }
    loop
        invariant
            start <= s@.len(),
            len == s@.len(),
            r@.map_values(|f: Vec<char>| f@) + split_commas(s@.subrange(start as int, s@.len() as int), left as nat)
                == split_commas(s@, n as nat),
        decreases s@.len() - start,
    {
        let ghost rest = s@.subrange(start as int, s@.len() as int);
        let ghost before = r@.map_values(|f: Vec<char>| f@);
        let found: Option<usize> = if left <= 1 { None } else { find_char(s, ',', start) };
        assert(found.is_some() ==> found.unwrap() < s@.len() && left > 1);
        match found {
            Some(i) => {
                let field = slice_of(s, start, i);
                proof {
                    let w = (i - start) as int;
                    assert forall|k: int| 0 <= k < w implies rest[k] != ',' by {
                        assert(rest[k] == s@[k + start]);
                    }
                    lemma_first_index(rest, ',', w);
                    assert(rest.subrange(w + 1, rest.len() as int) =~= s@.subrange(i + 1, s@.len() as int));
                    assert(rest.subrange(0, w) =~= field@);
                }
                r.push(field);
                proof {
                    assert(r@.map_values(|f: Vec<char>| f@) =~= before.push(field@));
                    assert(before.push(field@) + split_commas(s@.subrange(i + 1, s@.len() as int), (left - 1) as nat) =~= before + (seq![field@] + split_commas(s@.subrange(i + 1, s@.len() as int), (left - 1) as nat)));
                }
                start = i + 1;
                left = left - 1;
            },
            None => {
                let field = slice_of(s, start, s.len());
                proof {
                    if left > 1 {
                        assert forall|k: int| 0 <= k < rest.len() implies rest[k] != ',' by {
                            assert(rest[k] == s@[k + start]);
                        }
                        lemma_first_index(rest, ',', rest.len() as int);
                    }
                    assert(field@ =~= rest);
                }
                r.push(field);
                proof {
                    assert(r@.map_values(|f: Vec<char>| f@) =~= before + seq![rest]);
                }
                return r;
            },
        }
    }
}

/// Digit `k` of a fraction, 0 past its end.
pub open spec fn frac_digit(f: Seq<char>, k: int) -> int {
    if k < f.len() {
        f[k] as int - '0' as int
    } else {
        0
    }
}

/// The first four digits of a fraction, in ten-thousandths.
pub open spec fn frac4(f: Seq<char>) -> int {
    frac_digit(f, 0) * 1000 + frac_digit(f, 1) * 100 + frac_digit(f, 2) * 10 + frac_digit(f, 3)
}

/// A decimal `[+]digits[.digits]` (at least one digit) in basis points,
/// digits past the fourth decimal dropped, saturating at `u32::MAX`; 5000
/// (0.5) for anything else.
pub open spec fn confidence_bp(s: Seq<char>) -> u32 {
    let d = if s.len() > 0 && s[0] == '+' { s.drop_first() } else { s };
    let i = first_index(d, '.') as int;
    let ip = d.subrange(0, i);
    let fp = if i < d.len() { d.subrange(i + 1, d.len() as int) } else { Seq::<char>::empty() };
    if all_digits(ip) && all_digits(fp) && ip.len() + fp.len() > 0 {
        let v = digits_value(ip) * 10000 + frac4(fp);
        if v > u32::MAX { u32::MAX } else { v as u32 }
    } else {
        5000
    }
}

fn all_digits_in(s: &Vec<char>, from: usize, to: usize) -> (r: bool)
    requires
        from <= to <= s@.len(),
    ensures
        r == all_digits(s@.subrange(from as int, to as int)),
{
    let mut i: usize = from;
    while i < to
        invariant
            from <= i <= to <= s@.len(),
            forall|k: int| from <= k < i ==> '0' <= #[trigger] s@[k] <= '9',
        decreases to - i,
    {
        if !('0' <= s[i] && s[i] <= '9') {
            proof {
                assert(s@.subrange(from as int, to as int)[i - from] == s@[i as int]);
            }
            return false;
        }
        i = i + 1;
    }
    proof {
        assert forall|k: int| 0 <= k < (to - from) implies '0' <= #[trigger] s@.subrange(from as int, to as int)[k] <= '9' by {
            assert(s@.subrange(from as int, to as int)[k] == s@[k + from]);
        }
    }
    true
}

/// Parse a confidence written as a decimal into basis points.
pub fn parse_confidence(s: &Vec<char>) -> (r: u32)
    ensures
        r == confidence_bp(s@),
{
    let from: usize = if s.len() > 0 && s[0] == '+' { 1 } else { 0 };
    let ghost d = if s@.len() > 0 && s@[0] == '+' { s@.drop_first() } else { s@ };
    proof {
        assert(d =~= s@.subrange(from as int, s@.len() as int));
    }
    let dot: usize = match find_char(s, '.', from) {
        Some(i) => i,
        None => s.len(),
    };
    let frac_from: usize = if dot < s.len() { dot + 1 } else { s.len() };
    let ghost w = dot - from;
    proof {
        assert forall|k: int| 0 <= k < w implies d[k] != '.' by {
            assert(d[k] == s@[k + from]);
        }
        lemma_first_index(d, '.', w);
        assert(d.subrange(0, w) =~= s@.subrange(from as int, dot as int));
        if dot < s@.len() {
            assert(d.subrange(w + 1, d.len() as int) =~= s@.subrange(frac_from as int, s@.len() as int));
        } else {
            assert(s@.subrange(frac_from as int, s@.len() as int) =~= Seq::<char>::empty());
        }
    }
    let ok = all_digits_in(s, from, dot) && all_digits_in(s, frac_from, s.len()) && (dot - from) + (s.len() - frac_from) > 0;
    if !ok {
        return 5000;
    }
    let ghost ip = s@.subrange(from as int, dot as int);
    let ghost fp = s@.subrange(frac_from as int, s@.len() as int);
    let ip_val = digits_capped(s, from, dot, 430_000);
    let mut f: u64 = 0;
    let mut k: usize = 0;
    while k < 4
        invariant
            k <= 4,
            frac_from <= s@.len(),
            fp == s@.subrange(frac_from as int, s@.len() as int),
            all_digits(fp),
            f == if k == 0 { 0 } else if k == 1 { frac_digit(fp, 0) } else if k == 2 { frac_digit(fp, 0) * 10 + frac_digit(fp, 1) } else if k == 3 {
                frac_digit(fp, 0) * 100 + frac_digit(fp, 1) * 10 + frac_digit(fp, 2)
            } else {
                frac4(fp)
            },
            0 <= f < 10000,
        decreases 4 - k,
    {
        let digit: u64 = if k < s.len() - frac_from {
            proof {
                assert(fp[k as int] == s@[frac_from + k]);
            }
            (s[frac_from + k] as u32 - '0' as u32) as u64
        } else {
            0
        };
        f = f * 10 + digit;
        k = k + 1;
    }
    proof {
        lemma_digits_nonneg(ip);
    }
    let v: u64 = ip_val * 10000 + f;
    if v > 0xFFFF_FFFF {
        proof {
            if digits_value(ip) <= 430_000 {
                assert(v == digits_value(ip) * 10000 + frac4(fp));
            } else {
                assert(digits_value(ip) * 10000 + frac4(fp) > 0xFFFF_FFFF);
            }
        }
        0xFFFF_FFFF
    } else {
        v as u32
    }
}

/// One row of the tag file, as text fields; `confidence` in basis points.
#[derive(Debug)]
pub struct TagRow {
    pub address: Vec<char>,
    pub entity: Vec<char>,
    pub entity_type: Vec<char>,
    pub confidence: u32,
    pub source: Option<Vec<char>>,
}

/// The row that a line yields: `None` with fewer than four fields.
pub open spec fn row_of(line: Seq<char>) -> Option<(Seq<char>, Seq<char>, Seq<char>, u32, Option<Seq<char>>)> {
    let p = split_commas(line, 5);
    if p.len() < 4 {
        None
    } else {
        Some((
            trimmed(p[0]),
            trimmed(p[1]),
            trimmed(p[2]),
            confidence_bp(trimmed(p[3])),
            if p.len() > 4 { Some(trimmed(p[4])) } else { None },
        ))
    }
}

pub open spec fn row_view(r: TagRow) -> (Seq<char>, Seq<char>, Seq<char>, u32, Option<Seq<char>>) {
    (r.address@, r.entity@, r.entity_type@, r.confidence, match r.source { Some(s) => Some(s@), None => None })
}

/// The rows of the given lines, in order, skipping lines without a row.
pub open spec fn rows_of(lines: Seq<Seq<char>>) -> Seq<(Seq<char>, Seq<char>, Seq<char>, u32, Option<Seq<char>>)>
    decreases lines.len(),
{
    if lines.len() == 0 {
        Seq::empty()
    } else {
        match row_of(lines.last()) {
            Some(r) => rows_of(lines.drop_last()).push(r),
            None => rows_of(lines.drop_last()),
        }
    }
}

/// Parse the tag file: the header line is skipped; each later line gives
/// `address, entity, entity_type, confidence[, source]`, trimmed.
pub fn parse_tag_csv(content: &Vec<char>) -> (r: Vec<TagRow>)
    ensures
        r@.map_values(|t: TagRow| row_view(t)) == rows_of(split_lines(content@).drop_first()) || (split_lines(content@).len() == 0 && r@.len() == 0),
{
    let ls = lines(content);
    let ghost all = ls@.map_values(|l: Vec<char>| l@);
    let mut r: Vec<TagRow> = Vec::new();
    if ls.len() == 0 {
        return r;
    }
    let mut i: usize = 1;
    proof {
        assert(all.subrange(1, 1) =~= Seq::<Seq<char>>::empty());
        assert(r@.map_values(|t: TagRow| row_view(t)) =~= Seq::empty());
    }
    while i < ls.len()
        invariant
            1 <= i <= ls@.len(),
            all == ls@.map_values(|l: Vec<char>| l@),
            r@.map_values(|t: TagRow| row_view(t)) == rows_of(all.subrange(1, i as int)),
        decreases ls@.len() - i,
    {
        proof {
            assert(all.subrange(1, i as int + 1).drop_last() =~= all.subrange(1, i as int));
            assert(all.subrange(1, i as int + 1).last() == ls@[i as int]@);
        }
        let parts = split_fields(&ls[i], 5);
        let ghost pv = parts@.map_values(|f: Vec<char>| f@);
        if parts.len() >= 4 {
            proof {
                assert(pv[0] == parts@[0]@ && pv[1] == parts@[1]@ && pv[2] == parts@[2]@ && pv[3] == parts@[3]@);
            }
            let conf_text = trim(&parts[3]);
            let source = if parts.len() > 4 {
                proof {
                    assert(pv[4] == parts@[4]@);
                }
                Some(trim(&parts[4]))
            } else {
                None
            };
            let row = TagRow {
                address: trim(&parts[0]),
                entity: trim(&parts[1]),
                entity_type: trim(&parts[2]),
                confidence: parse_confidence(&conf_text),
                source,
            };
            let ghost before = r@.map_values(|t: TagRow| row_view(t));
            r.push(row);
            proof {
                assert(r@.map_values(|t: TagRow| row_view(t)) =~= before.push(row_view(row)));
            }
        }
        i = i + 1;
    }
    proof {
        assert(all.subrange(1, all.len() as int) =~= all.drop_first());
    }
    r
}

} // verus!
