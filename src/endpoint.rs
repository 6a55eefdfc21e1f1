//! Debug-endpoint URLs of the shape `ws://<host>[:<port>]/devtools/browser/<token>`.
use vstd::prelude::*;

verus! {

/// `ws://`
pub open spec fn ws_scheme() -> Seq<char> {
    seq!['w', 's', ':', '/', '/']
}

/// `/devtools/browser/`
pub open spec fn browser_path() -> Seq<char> {
    seq!['/', 'd', 'e', 'v', 't', 'o', 'o', 'l', 's', '/', 'b', 'r', 'o', 'w', 's', 'e', 'r', '/']
}

pub open spec fn is_host_char(c: char) -> bool {
    c != ':' && c != '/'
}

pub open spec fn is_digit(c: char) -> bool {
    '0' <= c && c <= '9'
}

pub open spec fn valid_host(h: Seq<char>) -> bool {
    h.len() > 0 && forall|i: int| 0 <= i < h.len() ==> is_host_char(#[trigger] h[i])
}

pub open spec fn is_digits(d: Seq<char>) -> bool {
    d.len() > 0 && forall|i: int| 0 <= i < d.len() ==> is_digit(#[trigger] d[i])
}

/// Digits without a superfluous leading zero.
pub open spec fn is_canonical_digits(d: Seq<char>) -> bool {
    is_digits(d) && (d.len() == 1 || d[0] != '0')
}

pub open spec fn digit_value(c: char) -> nat {
    (c as int - '0' as int) as nat
}

pub open spec fn digit_char(n: nat) -> char {
    if n == 0 { '0' } else if n == 1 { '1' } else if n == 2 { '2' } else if n == 3 { '3' }
    else if n == 4 { '4' } else if n == 5 { '5' } else if n == 6 { '6' } else if n == 7 { '7' }
    else if n == 8 { '8' } else { '9' }
}

/// The number that a run of decimal digits denotes.
pub open spec fn digits_value(d: Seq<char>) -> nat
    decreases d.len(),
{
    if d.len() == 0 {
        0
    } else {
        digits_value(d.drop_last()) * 10 + digit_value(d.last())
    }
}

/// The decimal text of a number, without leading zeros.
pub open spec fn decimal(n: nat) -> Seq<char>
    decreases n,
{
    if n < 10 {
        seq![digit_char(n)]
    } else {
        decimal(n / 10).push(digit_char(n % 10))
    }
}

/// `:<digits>` when a port is written, nothing otherwise.
pub open spec fn port_text(digits: Option<Seq<char>>) -> Seq<char> {
    match digits {
        Some(d) => seq![':'] + d,
        None => Seq::empty(),
    }
}

/// The URL assembled from its three parts, the port as written.
pub open spec fn url_shape(host: Seq<char>, digits: Option<Seq<char>>, token: Seq<char>) -> Seq<char> {
    ws_scheme() + host + port_text(digits) + browser_path() + token
}

pub open spec fn parts_ok(host: Seq<char>, digits: Option<Seq<char>>, token: Seq<char>) -> bool {
    &&& valid_host(host)
    &&& (digits matches Some(d) ==> is_digits(d))
    &&& token.len() > 0
}

/// The port as written fits in 16 bits.
pub open spec fn port_fits(digits: Option<Seq<char>>) -> bool {
    digits matches Some(d) ==> digits_value(d) < 65536
}

/// The port as written is the one that `port` holds.
pub open spec fn port_denotes(digits: Option<Seq<char>>, port: Option<u16>) -> bool {
    match (digits, port) {
        (None, None) => true,
        (Some(d), Some(p)) => digits_value(d) == p as nat,
        _ => false,
    }
}

pub open spec fn port_canonical(digits: Option<Seq<char>>) -> bool {
    digits matches Some(d) ==> is_canonical_digits(d)
}

/// `u` has the shape `ws://<host>[:<port>]/devtools/browser/<token>`.
pub open spec fn is_endpoint_url(u: Seq<char>) -> bool {
    exists|h: Seq<char>, d: Option<Seq<char>>, t: Seq<char>|
        #[trigger] parts_ok(h, d, t) && u == url_shape(h, d, t)
}

/// `u` has the endpoint shape and its port, if any, fits in 16 bits.
pub open spec fn is_parsable_endpoint_url(u: Seq<char>) -> bool {
    exists|h: Seq<char>, d: Option<Seq<char>>, t: Seq<char>|
        #[trigger] parts_ok(h, d, t) && u == url_shape(h, d, t) && port_fits(d)
}

/// `u` has the endpoint shape, with its port, if any, written canonically and in range.
pub open spec fn is_canonical_endpoint_url(u: Seq<char>) -> bool {
    exists|h: Seq<char>, d: Option<Seq<char>>, t: Seq<char>|
        #[trigger] parts_ok(h, d, t) && u == url_shape(h, d, t) && port_fits(d) && port_canonical(d)
}

/// The URL of an endpoint, its port written in decimal.
pub open spec fn endpoint_url(host: Seq<char>, port: Option<u16>, token: Seq<char>) -> Seq<char> {
    url_shape(host, port_digits(port), token)
}

pub open spec fn port_digits(port: Option<u16>) -> Option<Seq<char>> {
    match port {
        Some(p) => Some(decimal(p as nat)),
        None => None,
    }
}

/// The endpoint that `u` decomposes into.
pub open spec fn decomposes_to(u: Seq<char>, host: Seq<char>, port: Option<u16>, token: Seq<char>) -> bool {
    exists|d: Option<Seq<char>>|
        #[trigger] parts_ok(host, d, token) && u == url_shape(host, d, token) && port_denotes(d, port)
}

// ---------------------------------------------------------------------------
// Lemmas on digits and decimal text.

pub proof fn lemma_decimal_is_canonical(n: nat)
    ensures
        is_canonical_digits(decimal(n)),
        digits_value(decimal(n)) == n,
    decreases n,
{
    if n < 10 {
        lemma_digit_char(n);
        assert(decimal(n) =~= seq![digit_char(n)]);
        assert(decimal(n).drop_last() =~= Seq::<char>::empty());
        assert(digits_value(Seq::<char>::empty()) == 0);
        assert(decimal(n)[0] == digit_char(n));
    } else {
        lemma_digit_char(n % 10);
        lemma_decimal_is_canonical(n / 10);
        let q = decimal(n / 10);
        if q.len() == 1 {
            assert(q.drop_last() =~= Seq::<char>::empty());
            assert(digits_value(Seq::<char>::empty()) == 0);
            assert(digits_value(q) == digit_value(q[0]));
            assert(n / 10 >= 1);
            assert(digit_value(q[0]) >= 1);
            assert(q[0] != '0');
        }
        let s = decimal(n);
        assert(s.drop_last() =~= decimal(n / 10));
        assert(s[0] == decimal(n / 10)[0]);
        assert forall|i: int| 0 <= i < s.len() implies is_digit(#[trigger] s[i]) by {
            if i < s.len() - 1 {
                assert(s[i] == decimal(n / 10)[i]);
            }
        }
    }
}

proof fn lemma_digit_char(n: nat)
    requires
        n < 10,
    ensures
        is_digit(digit_char(n)),
        digit_value(digit_char(n)) == n,
{
}

proof fn lemma_digit_value(c: char)
    requires
        is_digit(c),
    ensures
        digit_value(c) < 10,
        digit_char(digit_value(c)) == c,
{
    let v = digit_value(c);
    if v == 0 { assert(c == '0'); } else if v == 1 { assert(c == '1'); } else if v == 2 { assert(c == '2'); }
    else if v == 3 { assert(c == '3'); } else if v == 4 { assert(c == '4'); } else if v == 5 { assert(c == '5'); }
    else if v == 6 { assert(c == '6'); } else if v == 7 { assert(c == '7'); } else if v == 8 { assert(c == '8'); }
    else { assert(c == '9'); }
}

proof fn lemma_zero_value_is_zero_digits(d: Seq<char>)
    requires
        is_digits(d),
        digits_value(d) == 0,
    ensures
        forall|i: int| 0 <= i < d.len() ==> #[trigger] d[i] == '0',
    decreases d.len(),
{
    if d.len() > 1 {
        let p = d.drop_last();
        assert forall|i: int| 0 <= i < p.len() implies is_digit(#[trigger] p[i]) by {
            assert(p[i] == d[i]);
        }
        lemma_zero_value_is_zero_digits(p);
        assert forall|i: int| 0 <= i < d.len() implies #[trigger] d[i] == '0' by {
            if i < d.len() - 1 {
                assert(d[i] == p[i]);
            }
        }
    }
}

pub proof fn lemma_canonical_digits_are_decimal(d: Seq<char>)
    requires
        is_canonical_digits(d),
    ensures
        decimal(digits_value(d)) == d,
    decreases d.len(),
{
    let n = digits_value(d);
    if d.len() == 1 {
        assert(d.drop_last() =~= Seq::<char>::empty());
        assert(digits_value(Seq::<char>::empty()) == 0);
        lemma_digit_value(d[0]);
        assert(d =~= seq![digit_char(n)]);
    } else {
        let p = d.drop_last();
        assert(p[0] == d[0]);
        assert forall|i: int| 0 <= i < p.len() implies is_digit(#[trigger] p[i]) by {
            assert(p[i] == d[i]);
        }
        lemma_canonical_digits_are_decimal(p);
        let m = digits_value(p);
        if m == 0 {
            lemma_zero_value_is_zero_digits(p);
            assert(p[0] == '0');
        }
        let c = digit_value(d.last());
        lemma_digit_value(d.last());
        assert(n == m * 10 + c);
        assert(n / 10 == m && n % 10 == c) by (nonlinear_arith)
            requires n == m * 10 + c, c < 10;
        assert(decimal(n) == decimal(m).push(digit_char(c)));
        assert(d =~= p.push(d.last()));
    }
}

proof fn lemma_prefix_value_bounded(d: Seq<char>, k: int)
    requires
        is_digits(d),
        0 <= k <= d.len(),
    ensures
        digits_value(d.subrange(0, k)) <= digits_value(d),
    decreases d.len() - k,
{
    if k < d.len() {
        lemma_prefix_value_bounded(d, k + 1);
        assert(d.subrange(0, k + 1).drop_last() =~= d.subrange(0, k));
    } else {
        assert(d.subrange(0, k) =~= d);
    }
}

// ---------------------------------------------------------------------------
// Uniqueness of the decomposition.

proof fn lemma_shape_unique(
    h1: Seq<char>, d1: Option<Seq<char>>, t1: Seq<char>,
    h2: Seq<char>, d2: Option<Seq<char>>, t2: Seq<char>,
)
    requires
        parts_ok(h1, d1, t1),
        parts_ok(h2, d2, t2),
        url_shape(h1, d1, t1) == url_shape(h2, d2, t2),
    ensures
        h1 == h2,
        d1 == d2,
        t1 == t2,
{
    let u = url_shape(h1, d1, t1);
    lemma_shape_facts(h1, d1, t1);
    lemma_shape_facts(h2, d2, t2);
    // the host ends at the first character that is not a host character
    if h1.len() < h2.len() {
        assert(u[5 + h1.len() as int] == h2[h1.len() as int]);
    } else if h2.len() < h1.len() {
        assert(u[5 + h2.len() as int] == h1[h2.len() as int]);
    }
    assert(h1 =~= h2) by {
        assert forall|i: int| 0 <= i < h1.len() implies h1[i] == h2[i] by {
            assert(u[5 + i] == h1[i]);
            assert(u[5 + i] == h2[i]);
        }
    }
    let k: int = 5 + h1.len() as int;
    match (d1, d2) {
        (Some(a), Some(b)) => {
            if a.len() < b.len() {
                assert(u[k + 1 + a.len()] == b[a.len() as int]);
            } else if b.len() < a.len() {
                assert(u[k + 1 + b.len()] == a[b.len() as int]);
            }
            assert(a =~= b) by {
                assert forall|i: int| 0 <= i < a.len() implies a[i] == b[i] by {
                    assert(u[k + 1 + i] == a[i]);
                    assert(u[k + 1 + i] == b[i]);
                }
            }
        },
        (Some(a), None) => {},
        (None, Some(b)) => {},
        (None, None) => {},
    }
    let m: int = k + port_text(d1).len();
    assert(t1 =~= t2) by {
        assert(t1 =~= u.subrange(m + 18, u.len() as int));
        assert(t2 =~= u.subrange(m + 18, u.len() as int));
    }
}

/// Where each part of an assembled URL stands.
proof fn lemma_shape_facts(h: Seq<char>, d: Option<Seq<char>>, t: Seq<char>)
    requires
        parts_ok(h, d, t),
    ensures
        ({
            let u = url_shape(h, d, t);
            let k: int = 5 + h.len() as int;
            let m: int = k + port_text(d).len();
            &&& u.len() == m + 18 + t.len()
            &&& u.subrange(0, 5) == ws_scheme()
            &&& (forall|i: int| 0 <= i < h.len() ==> u[5 + i] == #[trigger] h[i])
            &&& (forall|i: int| 5 <= i < k ==> is_host_char(#[trigger] u[i]))
            &&& !is_host_char(u[k as int])
            &&& (u[k as int] == ':' <==> d is Some)
            &&& (d matches Some(ds) ==> (forall|i: int| 0 <= i < ds.len() ==> u[k + 1 + i] == #[trigger] ds[i]))
            &&& (d matches Some(ds) ==> (forall|i: int| k + 1 <= i < m ==> is_digit(#[trigger] u[i])))
            &&& !is_digit(u[m as int])
            &&& u.subrange(m as int, m + 18) == browser_path()
            &&& u.subrange(m + 18, u.len() as int) == t
        }),
{
    let u = url_shape(h, d, t);
    let k: int = 5 + h.len() as int;
    let pt = port_text(d);
    let m: int = k + pt.len();
    assert(u =~= ws_scheme() + h + pt + browser_path() + t);
    assert(u.subrange(0, 5) =~= ws_scheme());
    assert forall|i: int| 0 <= i < h.len() implies u[5 + i] == #[trigger] h[i] by {}
    assert forall|i: int| 5 <= i < k implies is_host_char(#[trigger] u[i]) by {
        assert(u[i] == h[i - 5]);
    }
    if let Some(ds) = d {
        assert(u[k as int] == ':');
        assert forall|i: int| 0 <= i < ds.len() implies u[k + 1 + i] == #[trigger] ds[i] by {
            assert(pt[1 + i] == ds[i]);
        }
        assert forall|i: int| k + 1 <= i < m implies is_digit(#[trigger] u[i]) by {
            assert(u[i] == ds[i - k - 1]);
        }
    } else {
        assert(u[k as int] == '/');
    }
    assert(u[m as int] == '/');
    assert(u.subrange(m as int, m + 18) =~= browser_path());
    assert(u.subrange(m + 18, u.len() as int) =~= t);
}

// ---------------------------------------------------------------------------
// Executable parts.

/// Whether `pat` stands in `s` at `pos`.
pub(crate) fn matches_at(s: &str, pos: usize, pat: &str) -> (r: bool)
    ensures
        r == (pos + pat@.len() <= s@.len() && s@.subrange(pos as int, pos + pat@.len()) == pat@),
{
    let n = s.unicode_len();
    let m = pat.unicode_len();
    if pos > n || m > n - pos {
        return false;
    }
    let mut k: usize = 0;
    while k < m
        invariant
            n == s@.len(),
            m == pat@.len(),
            pos + m <= n,
            k <= m,
            forall|j: int| 0 <= j < k ==> s@[pos + j] == pat@[j],
        decreases m - k,
    {
        if s.get_char(pos + k) != pat.get_char(k) {
            assert(s@.subrange(pos as int, pos + m)[k as int] != pat@[k as int]);
            return false;
        }
        k += 1;
    }
    assert(s@.subrange(pos as int, pos + m) =~= pat@);
    true
}

pub(crate) fn is_digit_char(c: char) -> (r: bool)
    ensures
        r == is_digit(c),
{
    '0' <= c && c <= '9'
}

/// The parts of an endpoint URL, with where each stands.
proof fn lemma_pick_shape(u: Seq<char>) -> (r: (Seq<char>, Option<Seq<char>>, Seq<char>))
    requires
        is_endpoint_url(u),
    ensures
        parts_ok(r.0, r.1, r.2),
        u == url_shape(r.0, r.1, r.2),
        ({
            let (h, d, t) = r;
            let k: int = 5 + h.len() as int;
            let m: int = k + port_text(d).len();
            &&& u.len() == m + 18 + t.len()
            &&& u.subrange(0, 5) == ws_scheme()
            &&& (forall|i: int| 5 <= i < k ==> is_host_char(#[trigger] u[i]))
            &&& !is_host_char(u[k])
            &&& (u[k] == ':' <==> d is Some)
            &&& (d matches Some(ds) ==> (forall|i: int| k + 1 <= i < m ==> is_digit(#[trigger] u[i])))
            &&& !is_digit(u[m])
            &&& u.subrange(m, m + 18) == browser_path()
        }),
{
    let (h, d, t) = choose|h: Seq<char>, d: Option<Seq<char>>, t: Seq<char>|
        #[trigger] parts_ok(h, d, t) && u == url_shape(h, d, t);
    lemma_shape_facts(h, d, t);
    (h, d, t)
}

/// Positions found by a scan make up an endpoint URL.
proof fn lemma_scan_found(u: Seq<char>, k: int, m: int)
    requires
        u.subrange(0, 5) == ws_scheme(),
        5 < k < u.len(),
        forall|i: int| 5 <= i < k ==> is_host_char(#[trigger] u[i]),
        (m == k && u[k] == '/') || (u[k] == ':' && k + 1 < m),
        forall|i: int| k + 1 <= i < m ==> is_digit(#[trigger] u[i]),
        m + 18 < u.len(),
        u.subrange(m, m + 18) == browser_path(),
    ensures
        ({
            let h = u.subrange(5, k);
            let d = if m == k { None } else { Some(u.subrange(k + 1, m)) };
            let t = u.subrange(m + 18, u.len() as int);
            parts_ok(h, d, t) && u == url_shape(h, d, t)
        }),
{
    let h = u.subrange(5, k);
    let d = if m == k { None } else { Some(u.subrange(k + 1, m)) };
    let t = u.subrange(m + 18, u.len() as int);
    assert forall|i: int| 0 <= i < h.len() implies is_host_char(#[trigger] h[i]) by {
        assert(h[i] == u[5 + i]);
    }
    if let Some(ds) = d {
        assert forall|i: int| 0 <= i < ds.len() implies is_digit(#[trigger] ds[i]) by {
            assert(ds[i] == u[k + 1 + i]);
        }
        assert(port_text(d) =~= u.subrange(k, m));
    } else {
        assert(port_text(d) =~= u.subrange(k, m));
    }
    assert(u =~= url_shape(h, d, t));
}

/// Positions of the parts of an endpoint URL: the end of the host, the end of the port
/// (the end of the host where no port is written) and the start of the token.
fn scan_endpoint(u: &str) -> (r: Option<(usize, usize)>)
    ensures
        r is Some <==> is_endpoint_url(u@),
        r matches Some((k, m)) ==> 5 < k <= m && m + 18 < u@.len() && (m == k || k + 1 < m),
        r matches Some((k, m)) ==> ({
            let h = u@.subrange(5, k as int);
            let d = if m == k { None } else { Some(u@.subrange(k + 1, m as int)) };
            let t = u@.subrange(m + 18, u@.len() as int);
            parts_ok(h, d, t) && u@ == url_shape(h, d, t)
        }),
{
    let n = u.unicode_len();
    proof {
        reveal_strlit("ws://");
        reveal_strlit("/devtools/browser/");
        assert("ws://"@ =~= ws_scheme());
        assert("/devtools/browser/"@ =~= browser_path());
    }
    if !matches_at(u, 0, "ws://") {
        proof {
            if is_endpoint_url(u@) {
                lemma_pick_shape(u@);
            }
        }
        return None;
    }
    let mut k: usize = 5;
    while k < n && u.get_char(k) != ':' && u.get_char(k) != '/'
        invariant
            n == u@.len(),
            5 <= k <= n,
            forall|i: int| 5 <= i < k ==> is_host_char(#[trigger] u@[i]),
        decreases n - k,
    {
        k += 1;
    }
    let mut m: usize = k;
    let mut ok = k > 5 && k < n;
    if ok && u.get_char(k) == ':' {
        m = k + 1;
        while m < n && is_digit_char(u.get_char(m))
            invariant
                n == u@.len(),
                k < m <= n,
                forall|i: int| k + 1 <= i < m ==> is_digit(#[trigger] u@[i]),
            decreases n - m,
        {
            m += 1;
        }
        ok = m > k + 1;
    }
    if ok {
        ok = matches_at(u, m, "/devtools/browser/") && m + 18 < n;
    }
    proof {
        if is_endpoint_url(u@) {
            let (h, d, t) = lemma_pick_shape(u@);
            let k0: int = 5 + h.len() as int;
            if k < k0 {
                assert(is_host_char(u@[k as int]));
            }
            assert(k == k0);
            if let Some(ds) = d {
                let m0: int = k0 + 1 + ds.len();
                if m < m0 {
                    assert(is_digit(u@[m as int]));
                }
                assert(m == m0);
            }
        }
        if ok {
            lemma_scan_found(u@, k as int, m as int);
        }
    }
    if ok { Some((k, m)) } else { None }
}

/// The value of the decimal digits `s[from..to]`, when it fits in 16 bits.
pub(crate) fn parse_port(s: &str, from: usize, to: usize) -> (r: Option<u16>)
    requires
        from < to <= s@.len(),
        is_digits(s@.subrange(from as int, to as int)),
    ensures
        r is Some <==> digits_value(s@.subrange(from as int, to as int)) < 65536,
        r matches Some(p) ==> p as nat == digits_value(s@.subrange(from as int, to as int)),
{
    let ghost d = s@.subrange(from as int, to as int);
    let mut v: u32 = 0;
    let mut j: usize = from;
    while j < to
        invariant
            from <= j <= to <= s@.len(),
            d == s@.subrange(from as int, to as int),
            is_digits(d),
            v as nat == digits_value(d.subrange(0, j - from)),
            v < 65536,
        decreases to - j,
    {
        let c = s.get_char(j);
        assert(d[j - from] == c);
        assert(d.subrange(0, j - from + 1).drop_last() =~= d.subrange(0, j - from));
        let dv = (c as u32) - ('0' as u32);
        let w = v * 10 + dv;
        if w >= 65536 {
            proof {
                lemma_prefix_value_bounded(d, j - from + 1);
            }
            return None;
        }
        v = w;
        j += 1;
    }
    assert(d.subrange(0, to - from) =~= d);
    Some(v as u16)
}

fn digit_str(n: u16) -> (r: &'static str)
    requires
        n < 10,
    ensures
        r@ == seq![digit_char(n as nat)],
{
    proof {
        reveal_strlit("0"); reveal_strlit("1"); reveal_strlit("2"); reveal_strlit("3");
        reveal_strlit("4"); reveal_strlit("5"); reveal_strlit("6"); reveal_strlit("7");
        reveal_strlit("8"); reveal_strlit("9");
    }
    match n {
        0 => "0",
        1 => "1",
        2 => "2",
        3 => "3",
        4 => "4",
        5 => "5",
        6 => "6",
        7 => "7",
        8 => "8",
        _ => "9",
    }
}

/// Appends the decimal text of `n` to `s`.
pub(crate) fn push_decimal(s: &mut String, n: u16)
    ensures
        final(s)@ == old(s)@ + decimal(n as nat),
    decreases n,
{
    if n >= 10 {
        push_decimal(s, n / 10);
    }
    s.append(digit_str(n % 10));
    proof {
        if n >= 10 {
            assert(decimal(n as nat) == decimal((n / 10) as nat).push(digit_char((n % 10) as nat)));
        }
    }
    assert(final(s)@ =~= old(s)@ + decimal(n as nat));
}

/// The URL of the endpoint with these parts.
pub fn endpoint_url_of(host: &str, port: Option<u16>, token: &str) -> (r: String)
    ensures
        r@ == endpoint_url(host@, port, token@),
{
    let mut s = String::new();
    s.append("ws://");
    s.append(host);
    if let Some(p) = port {
        s.append(":");
        push_decimal(&mut s, p);
    }
    s.append("/devtools/browser/");
    s.append(token);
    proof {
        reveal_strlit("ws://");
        reveal_strlit(":");
        reveal_strlit("/devtools/browser/");
        assert(s@ =~= endpoint_url(host@, port, token@));
    }
    s
}

/// Checks the shape of `u` and splits it into host, port and token.
pub fn split_endpoint_url(u: &str) -> (r: Option<(String, Option<u16>, String)>)
    ensures
        r is Some <==> is_parsable_endpoint_url(u@),
        r matches Some((h, p, t)) ==> decomposes_to(u@, h@, p, t@),
{
    match scan_endpoint(u) {
        None => {
            assert(!is_parsable_endpoint_url(u@));
            None
        },
        Some((k, m)) => {
            let ghost h = u@.subrange(5, k as int);
            let ghost d = if m == k { None } else { Some(u@.subrange(k + 1, m as int)) };
            let ghost t = u@.subrange(m + 18, u@.len() as int);
            let n = u.unicode_len();
            let port = if m == k {
                None
            } else {
                match parse_port(u, k + 1, m) {
                    Some(p) => Some(p),
                    None => {
                        proof {
                            if is_parsable_endpoint_url(u@) {
                                let (h2, d2, t2) = choose|h2: Seq<char>, d2: Option<Seq<char>>, t2: Seq<char>|
                                    #[trigger] parts_ok(h2, d2, t2) && u@ == url_shape(h2, d2, t2) && port_fits(d2);
                                lemma_shape_unique(h, d, t, h2, d2, t2);
                            }
                        }
                        return None;
                    },
                }
            };
            let host = u.substring_char(5, k).to_owned();
            let token = u.substring_char(m + 18, n).to_owned();
            assert(parts_ok(h, d, t) && port_fits(d));
            assert(port_denotes(d, port));
            assert(decomposes_to(u@, host@, port, token@));
            Some((host, port, token))
        },
    }
}

/// True iff `u` has the shape `ws://<host>[:<port>]/devtools/browser/<token>`.
pub fn is_valid_endpoint_url(u: &str) -> (r: bool)
    ensures
        r == is_endpoint_url(u@),
{
    scan_endpoint(u).is_some()
}

// ---------------------------------------------------------------------------
// The two round trips.

/// Decomposing an endpoint URL whose port is written canonically and assembling the
/// parts again gives back the same URL.
pub proof fn lemma_url_round_trip(u: Seq<char>, host: Seq<char>, port: Option<u16>, token: Seq<char>)
    requires
        is_canonical_endpoint_url(u),
        decomposes_to(u, host, port, token),
    ensures
        endpoint_url(host, port, token) == u,
{
    let (h, d, t) = choose|h: Seq<char>, d: Option<Seq<char>>, t: Seq<char>|
        #[trigger] parts_ok(h, d, t) && u == url_shape(h, d, t) && port_fits(d) && port_canonical(d);
    let d2 = choose|d2: Option<Seq<char>>|
        #[trigger] parts_ok(host, d2, token) && u == url_shape(host, d2, token) && port_denotes(d2, port);
    lemma_shape_unique(h, d, t, host, d2, token);
    if let Some(ds) = d {
        lemma_canonical_digits_are_decimal(ds);
    }
    assert(port_digits(port) == d);
}

/// Assembling the URL of a well-formed endpoint and decomposing it gives back the same parts.
pub proof fn lemma_endpoint_round_trip(host: Seq<char>, port: Option<u16>, token: Seq<char>)
    requires
        valid_host(host),
        token.len() > 0,
    ensures
        is_canonical_endpoint_url(endpoint_url(host, port, token)),
        forall|h: Seq<char>, p: Option<u16>, t: Seq<char>|
            #[trigger] decomposes_to(endpoint_url(host, port, token), h, p, t)
                ==> h == host && p == port && t == token,
{
    let d = port_digits(port);
    if let Some(p) = port {
        lemma_decimal_is_canonical(p as nat);
    }
    assert(parts_ok(host, d, token));
    assert(port_fits(d) && port_canonical(d));
    assert forall|h: Seq<char>, p: Option<u16>, t: Seq<char>|
        #[trigger] decomposes_to(endpoint_url(host, port, token), h, p, t)
            implies h == host && p == port && t == token by {
        let d2 = choose|d2: Option<Seq<char>>|
            #[trigger] parts_ok(h, d2, t) && endpoint_url(host, port, token) == url_shape(h, d2, t)
                && port_denotes(d2, p);
        lemma_shape_unique(host, d, token, h, d2, t);
    }
}


// ---------------------------------------------------------------------------
// Configuration of a proxied browser.

/// The parts of a debug-endpoint URL.
#[derive(Debug, Clone, PartialEq)]
pub struct ProxyConfigComponents {
    pub ip: String,
    pub port: Option<u16>,
    pub token: String,
}

impl ProxyConfigComponents {
    /// Creates a [ProxyConfigComponents] object
    pub fn new(ip: &str, port: Option<u16>, token: &str) -> (r: Self)
        ensures
            r.ip@ == ip@,
            r.port == port,
            r.token@ == token@,
    {
        ProxyConfigComponents { ip: ip.to_owned(), port, token: token.to_owned() }
    }

    /// The parts form a well-formed endpoint.
    pub open spec fn wf(&self) -> bool {
        valid_host(self.ip@) && self.token@.len() > 0
    }
}

/// A browser reached through an already-running debug endpoint.
#[derive(Debug, Clone, PartialEq)]
pub struct ProxyConfig {
    debug_ws_url: String,
}

impl View for ProxyConfig {
    type V = Seq<char>;

    closed spec fn view(&self) -> Seq<char> {
        self.debug_ws_url@
    }
}

/// The message of a URL that is not an endpoint URL.
pub open spec fn malformed_url_message(url: Seq<char>) -> Seq<char> {
    seq!['u', 'r', 'l', ' '] + url + " doesn't conform to format"@
}

impl ProxyConfig {
    /// Checks whether url is valid
    pub fn is_valid_url(url: &str) -> (r: bool)
        ensures
            r == is_endpoint_url(url@),
    {
        is_valid_endpoint_url(url)
    }

    /// Constructs a new [ProxyConfig] structure
    pub fn new(debug_ws_url: &str) -> (r: Result<Self, String>)
        ensures
            r is Ok <==> is_endpoint_url(debug_ws_url@),
            r matches Ok(c) ==> c@ == debug_ws_url@,
            r matches Err(e) ==> e@ == malformed_url_message(debug_ws_url@),
    {
        if Self::is_valid_url(debug_ws_url) {
            Ok(ProxyConfig { debug_ws_url: debug_ws_url.to_owned() })
        } else {
            let mut e = String::new();
            e.append("url ");
            e.append(debug_ws_url);
            e.append(" doesn't conform to format");
            proof {
                reveal_strlit("url ");
                assert(e@ =~= malformed_url_message(debug_ws_url@));
            }
            Err(e)
        }
    }

    /// The configuration for the endpoint with these parts.
    pub fn from_components(ip: &str, port: Option<u16>, token: &str) -> (r: Self)
        requires
            valid_host(ip@),
            token@.len() > 0,
        ensures
            r@ == endpoint_url(ip@, port, token@),
            is_endpoint_url(r@),
    {
        let url = endpoint_url_of(ip, port, token);
        proof {
            lemma_endpoint_round_trip(ip@, port, token@);
        }
        ProxyConfig { debug_ws_url: url }
    }

    /// Turns [ProxyConfig] into [ProxyConfigComponents]
    pub fn into_components(self) -> (r: Result<ProxyConfigComponents, String>)
        ensures
            r is Ok <==> is_parsable_endpoint_url(self@),
            r matches Ok(c) ==> decomposes_to(self@, c.ip@, c.port, c.token@) && c.wf(),
    {
        match split_endpoint_url(self.debug_ws_url.as_str()) {
            Some((ip, port, token)) => Ok(ProxyConfigComponents { ip, port, token }),
            None => {
                let mut e = String::new();
                e.append("url ");
                e.append(self.debug_ws_url.as_str());
                e.append(" has a port that does not fit in 16 bits");
                Err(e)
            },
        }
    }

    /// The debug-endpoint URL.
    pub fn debug_ws_url(&self) -> (r: &String)
        ensures
            r@ == self@,
    {
        &self.debug_ws_url
    }
}

} // verus!
