//! Decisions of the WebSocket server: who may connect, which host to
//! advertise, whether a workspace is trusted, and the configuration it runs
//! with.

use vstd::prelude::*;

use crate::ids::{hex_bytes, lemma_token_len};
use crate::text::{
    all_digits, decimal, digit_char, digits_value, hex, hex2, is_ascii_alnum, is_digit, lemma_hex_alnum,
    lemma_trim_unchanged, push_decimal, push_str, to_chars, trim, trim_chars,
};

verus! {

broadcast use vstd::string::group_string_axioms;

// ---------------------------------------------------------------------------
// Authentication
// ---------------------------------------------------------------------------

/// A byte that an HTTP header value may hold when read as text: visible
/// ASCII or a tab (what `HeaderValue::to_str` accepts).
pub open spec fn is_visible_ascii(b: u8) -> bool {
    (32 <= b && b < 127) || b == 9
}

/// The bytes `h` read as ASCII text.
pub open spec fn ascii_text(h: Seq<u8>) -> Seq<char> {
    h.map_values(|b: u8| b as char)
}

/// The prefix of a bearer credential: `Bearer ` with one space.
pub open spec fn bearer_prefix() -> Seq<char> {
    seq!['B', 'e', 'a', 'r', 'e', 'r', ' ']
}

/// The token of an `Authorization` header value `h`: present when `h` is
/// visible ASCII starting with `Bearer `, and then the text after it.
pub open spec fn bearer_token(h: Seq<u8>) -> Option<Seq<char>> {
    let t = ascii_text(h);
    if (forall|i: int| 0 <= i < h.len() ==> is_visible_ascii(#[trigger] h[i])) && t.len() >= 7
        && t.subrange(0, 7) == bearer_prefix() {
        Some(t.subrange(7, t.len() as int))
    } else {
        None
    }
}

/// A request is authorized when its `Authorization` header carries
/// `Bearer <expected>` or its `token` query parameter is `expected`.
pub open spec fn authorized(header: Option<Seq<u8>>, query: Option<Seq<char>>, expected: Seq<char>) -> bool {
    ||| (header is Some && bearer_token(header->0) == Some(expected))
    ||| query == Some(expected)
}

fn bearer_token_of(h: &[u8]) -> (r: Option<String>)
    ensures
        r.deep_view() == bearer_token(h@),
{
    let n = h.len();
    let mut i: usize = 0;
    while i < n
        invariant
            n == h@.len(),
            i <= n,
            forall|k: int| 0 <= k < i ==> is_visible_ascii(#[trigger] h@[k]),
        decreases n - i,
    {
        let b = h[i];
        if !((32 <= b && b < 127) || b == 9) {
            return None;
        }
        i = i + 1;
    }
    let ghost t = ascii_text(h@);
    if n < 7 {
        return None;
    }
    let p = ['B', 'e', 'a', 'r', 'e', 'r', ' '];
    let mut j: usize = 0;
    while j < 7
        invariant
            n == h@.len(),
            n >= 7,
            j <= 7,
            p@ == bearer_prefix(),
            forall|k: int| 0 <= k < j ==> t[k] == #[trigger] bearer_prefix()[k],
            t == ascii_text(h@),
        decreases 7 - j,
    {
        if h[j] as char != p[j] {
            assert(t.subrange(0, 7)[j as int] != bearer_prefix()[j as int]);
            return None;
        }
        j = j + 1;
    }
    assert(t.subrange(0, 7) =~= bearer_prefix());
    let mut s = String::new();
    let mut k: usize = 7;
    while k < n
        invariant
            n == h@.len(),
            7 <= k <= n,
            t == ascii_text(h@),
            s@ == t.subrange(7, k as int),
        decreases n - k,
    {
        s.push(h[k] as char);
        k = k + 1;
        assert(s@ =~= t.subrange(7, k as int));
    }
    Some(s)
}

/// Whether a WebSocket upgrade request may connect: its `Authorization`
/// header value (the first one, as raw bytes) is `Bearer <expected>`, or its
/// `token` query parameter is `expected`.
pub fn check_auth(authorization: Option<&[u8]>, query_token: Option<&str>, expected: &str) -> (b: bool)
    ensures
        b == authorized(
            match authorization {
                Some(h) => Some(h@),
                None => None,
            },
            query_token.deep_view(),
            expected@,
        ),
        (authorization matches Some(h) && bearer_token(h@) == Some(expected@)) ==> b,
        (query_token matches Some(q) && q@ == expected@) ==> b,
        b ==> (authorization matches Some(h) && bearer_token(h@) == Some(expected@)) || (query_token matches Some(
            q,
        ) && q@ == expected@),
{
    let want = expected.to_owned();
    let by_header = match authorization {
        Some(h) => match bearer_token_of(h) {
            Some(t) => t == want,
            None => false,
        },
        None => false,
    };
    let by_query = match query_token {
        Some(q) => q.to_owned() == want,
        None => false,
    };
    by_header || by_query
}

// ---------------------------------------------------------------------------
// Host selection
// ---------------------------------------------------------------------------

/// The host to advertise: the Tailscale address when there is one, else
/// the LAN address.
pub fn preferred_connect_host(tailscale_ip: Option<String>, lan_ip: Option<String>) -> (r: Option<String>)
    ensures
        r == (match tailscale_ip {
            Some(t) => Some(t),
            None => lan_ip,
        }),
{
    match tailscale_ip {
        Some(t) => Some(t),
        None => lan_ip,
    }
}

/// The address the daemon binds: with `--bind-tailscale`, the Tailscale
/// address, else the LAN address, else all interfaces; without it, all
/// interfaces.
pub fn bind_host(bind_tailscale: bool, tailscale_ip: Option<String>, lan_ip: Option<String>) -> (r: String)
    ensures
        r@ == (if bind_tailscale {
            match tailscale_ip {
                Some(t) => t@,
                None => match lan_ip {
                    Some(l) => l@,
                    None => "0.0.0.0"@,
                },
            }
        } else {
            "0.0.0.0"@
        }),
{
    if bind_tailscale {
        match preferred_connect_host(tailscale_ip, lan_ip) {
            Some(h) => h,
            None => "0.0.0.0".to_owned(),
        }
    } else {
        "0.0.0.0".to_owned()
    }
}

/// The dotted-decimal text of an IPv4 address.
pub open spec fn ipv4_text(o: (u8, u8, u8, u8)) -> Seq<char> {
    decimal(o.0 as nat) + seq!['.'] + decimal(o.1 as nat) + seq!['.'] + decimal(o.2 as nat) + seq!['.']
        + decimal(o.3 as nat)
}

/// What `s.parse::<IpAddr>()` gives as an IPv4 address: the octets whose
/// dotted-decimal text `s` is (each octet without leading zeros), if any.
pub open spec fn parse_ipv4(s: Seq<char>) -> Option<(u8, u8, u8, u8)> {
    if exists|o: (u8, u8, u8, u8)| ipv4_text(o) == s {
        Some(choose|o: (u8, u8, u8, u8)| ipv4_text(o) == s)
    } else {
        None
    }
}

/// An address in Tailscale's CGNAT range 100.64.0.0/10.
pub open spec fn in_tailscale_range(o: (u8, u8, u8, u8)) -> bool {
    o.0 == 100 && (o.1 & 0xc0) == 64
}

/// A group of one to three digits, without a leading zero, of value at
/// most 255: the text of one octet.
pub open spec fn is_octet_text(g: Seq<char>) -> bool {
    &&& 1 <= g.len() <= 3
    &&& all_digits(g)
    &&& (g.len() == 1 || g[0] != '0')
    &&& digits_value(g) <= 255
}

proof fn lemma_digit_char_value(c: char)
    requires
        is_digit(c),
    ensures
        digit_char(((c as u32) - ('0' as u32)) as nat) == c,
{
}

proof fn lemma_digit_value_char(d: nat)
    requires
        d < 10,
    ensures
        is_digit(digit_char(d)),
        ((digit_char(d) as u32) - ('0' as u32)) as nat == d,
        digit_char(d) == '0' <==> d == 0,
{
}

/// The text of an octet is the decimal notation of its value.
proof fn lemma_octet_text_canonical(g: Seq<char>)
    requires
        is_octet_text(g),
    ensures
        g == decimal(digits_value(g)),
{
    let v = digits_value(g);
    if g.len() == 1 {
        assert(g.drop_last() =~= Seq::<char>::empty());
        assert(digits_value(g.drop_last()) == 0);
        assert(g.last() == g[0]);
        assert(is_digit(g[0]));
        lemma_digit_char_value(g[0]);
        assert(v == ((g[0] as u32) - ('0' as u32)) as nat);
        assert(v < 10);
        assert(decimal(v) =~= g);
    } else if g.len() == 2 {
        let h = g.drop_last();
        assert(h.drop_last() =~= Seq::<char>::empty());
        assert(is_digit(g[0]) && is_digit(g[1]));
        assert(h[0] == g[0]);
        assert(h.last() == g[0]);
        assert(digits_value(h.drop_last()) == 0);
        lemma_digit_char_value(g[0]);
        lemma_digit_char_value(g[1]);
        let d0 = ((g[0] as u32) - ('0' as u32)) as nat;
        let d1 = ((g[1] as u32) - ('0' as u32)) as nat;
        assert(digits_value(h) == d0);
        assert(v == d0 * 10 + d1);
        assert(d0 >= 1);
        assert(v / 10 == d0 && v % 10 == d1) by (nonlinear_arith)
            requires v == d0 * 10 + d1, d1 < 10;
        assert(decimal(v) == decimal(d0).push(digit_char(d1)));
        assert(decimal(v) =~= g);
    } else {
        let h = g.drop_last();
        let h2 = h.drop_last();
        assert(h2.drop_last() =~= Seq::<char>::empty());
        assert(is_digit(g[0]) && is_digit(g[1]) && is_digit(g[2]));
        assert(h[0] == g[0] && h[1] == g[1] && h2[0] == g[0]);
        assert(h2.last() == g[0] && h.last() == g[1] && g.last() == g[2]);
        assert(digits_value(h2.drop_last()) == 0);
        lemma_digit_char_value(g[0]);
        lemma_digit_char_value(g[1]);
        lemma_digit_char_value(g[2]);
        let d0 = ((g[0] as u32) - ('0' as u32)) as nat;
        let d1 = ((g[1] as u32) - ('0' as u32)) as nat;
        let d2 = ((g[2] as u32) - ('0' as u32)) as nat;
        assert(digits_value(h2) == d0);
        assert(digits_value(h) == d0 * 10 + d1);
        assert(v == (d0 * 10 + d1) * 10 + d2);
        assert(d0 >= 1);
        let w = d0 * 10 + d1;
        assert(v / 10 == w && v % 10 == d2 && w / 10 == d0 && w % 10 == d1 && w >= 10)
            by (nonlinear_arith)
            requires v == w * 10 + d2, w == d0 * 10 + d1, d1 < 10, d2 < 10, d0 >= 1;
        assert(decimal(w) == decimal(d0).push(digit_char(d1)));
        assert(decimal(v) == decimal(w).push(digit_char(d2)));
        assert(decimal(v) =~= g);
    }
}

/// The decimal notation of a byte is the text of an octet.
proof fn lemma_decimal_octet(v: u8)
    ensures
        is_octet_text(decimal(v as nat)),
        digits_value(decimal(v as nat)) == v,
        forall|i: int| 0 <= i < decimal(v as nat).len() ==> #[trigger] decimal(v as nat)[i] != '.',
{
    crate::text::lemma_decimal_digits(v as nat);
    let n = v as nat;
    let d = decimal(n);
    if n >= 10 {
        if n >= 100 {
            assert(n / 10 >= 10);
            assert(n / 10 / 10 < 10 && n / 10 / 10 >= 1);
            assert(decimal(n / 10) == decimal(n / 10 / 10).push(digit_char(n / 10 % 10)));
            lemma_digit_value_char(n / 10 / 10);
            assert(d[0] == decimal(n / 10)[0]);
            assert(decimal(n / 10)[0] == digit_char(n / 10 / 10));
        } else {
            assert(n / 10 < 10 && n / 10 >= 1);
            lemma_digit_value_char(n / 10);
            assert(d[0] == decimal(n / 10)[0]);
        }
    }
    assert forall|i: int| 0 <= i < d.len() implies #[trigger] d[i] != '.' by {
        assert(is_digit(d[i]));
    }
}

/// `e` ends the group of `s` that starts at `start`: no `.` lies between,
/// and `e` is the end of `s` or a `.`.
pub open spec fn group_end(s: Seq<char>, start: int, e: int) -> bool {
    &&& start <= e <= s.len()
    &&& (e == s.len() || s[e] == '.')
    &&& forall|k: int| start <= k < e ==> s[k] != '.'
}

/// Reads the octet group of `s` that starts at `start`: the digits up to the
/// next `.` or the end.
fn read_octet(s: &Vec<char>, start: usize) -> (r: Option<(u8, usize)>)
    requires
        start <= s@.len(),
    ensures
        match r {
            Some((v, end)) => {
                &&& group_end(s@, start as int, end as int)
                &&& is_octet_text(s@.subrange(start as int, end as int))
                &&& digits_value(s@.subrange(start as int, end as int)) == v
            },
            None => forall|end: int| group_end(s@, start as int, end) ==> !is_octet_text(
                #[trigger] s@.subrange(start as int, end)),
        },
{
    let n = s.len();
    let mut end: usize = start;
    while end < n && s[end] != '.'
        invariant
            n == s@.len(),
            start <= end <= n,
            forall|k: int| start <= k < end ==> s@[k] != '.',
        decreases n - end,
    {
        end = end + 1;
    }
    let ghost g = s@.subrange(start as int, end as int);
    proof {
        assert forall|e: int| group_end(s@, start as int, e) implies e == end by {
            lemma_group_end_unique(s@, start as int, e, end as int);
        }
        assert(g.subrange(0, 0) =~= Seq::<char>::empty());
    }
    let len = end - start;
    if len < 1 || len > 3 {
        return None;
    }
    let mut v: u32 = 0;
    let mut k: usize = start;
    while k < end
        invariant
            n == s@.len(),
            start <= k <= end <= n,
            end - start <= 3,
            g == s@.subrange(start as int, end as int),
            all_digits(g.subrange(0, k - start)),
            v == digits_value(g.subrange(0, k - start)),
            k - start == 0 ==> v == 0,
            k - start == 1 ==> v < 10,
            k - start == 2 ==> v < 100,
            v < 1000,
            group_end(s@, start as int, end as int),
            forall|e: int| group_end(s@, start as int, e) ==> e == end,
        decreases end - k,
    {
        let c = s[k];
        if !('0' <= c && c <= '9') {
            assert(g[k - start] == c);
            return None;
        }
        let ghost p = g.subrange(0, k - start + 1);
        assert(p.drop_last() =~= g.subrange(0, k - start));
        v = v * 10 + (c as u32 - '0' as u32);
        k = k + 1;
        assert(all_digits(g.subrange(0, k - start))) by {
            assert forall|x: int| 0 <= x < k - start implies is_digit(#[trigger] g.subrange(0, k - start)[x]) by {
                if x < k - start - 1 {
                    assert(g.subrange(0, k - start)[x] == g.subrange(0, k - start - 1)[x]);
                }
            }
        }
    }
    assert(g.subrange(0, end - start) =~= g);
    if len > 1 && s[start] == '0' {
        return None;
    }
    if v > 255 {
        return None;
    }
    Some((v as u8, end))
}

proof fn lemma_group_end_unique(s: Seq<char>, start: int, e1: int, e2: int)
    requires
        group_end(s, start, e1),
        group_end(s, start, e2),
    ensures
        e1 == e2,
{
    if e1 < e2 {
        assert(s[e1] != '.');
    }
    if e2 < e1 {
        assert(s[e2] != '.');
    }
}

/// The layout of `ipv4_text(o)`: four octet groups at known places,
/// separated by single dots.
proof fn lemma_ipv4_parts(o: (u8, u8, u8, u8))
    ensures
        ({
            let s = ipv4_text(o);
            let p0 = decimal(o.0 as nat).len() as int;
            let p1 = p0 + 1 + decimal(o.1 as nat).len();
            let p2 = p1 + 1 + decimal(o.2 as nat).len();
            &&& s.len() == p2 + 1 + decimal(o.3 as nat).len()
            &&& group_end(s, 0, p0) && p0 < s.len()
            &&& group_end(s, p0 + 1, p1) && p1 < s.len()
            &&& group_end(s, p1 + 1, p2) && p2 < s.len()
            &&& group_end(s, p2 + 1, s.len() as int)
            &&& s.subrange(0, p0) == decimal(o.0 as nat)
            &&& s.subrange(p0 + 1, p1) == decimal(o.1 as nat)
            &&& s.subrange(p1 + 1, p2) == decimal(o.2 as nat)
            &&& s.subrange(p2 + 1, s.len() as int) == decimal(o.3 as nat)
        }),
{
    lemma_decimal_octet(o.0);
    lemma_decimal_octet(o.1);
    lemma_decimal_octet(o.2);
    lemma_decimal_octet(o.3);
    let s = ipv4_text(o);
    let d0 = decimal(o.0 as nat);
    let d1 = decimal(o.1 as nat);
    let d2 = decimal(o.2 as nat);
    let d3 = decimal(o.3 as nat);
    let p0 = d0.len() as int;
    let p1 = p0 + 1 + d1.len();
    let p2 = p1 + 1 + d2.len();
    assert(s.subrange(0, p0) =~= d0);
    assert(s.subrange(p0 + 1, p1) =~= d1);
    assert(s.subrange(p1 + 1, p2) =~= d2);
    assert(s.subrange(p2 + 1, s.len() as int) =~= d3);
    assert forall|k: int| 0 <= k < p0 implies s[k] != '.' by {
        assert(s[k] == d0[k]);
    }
    assert forall|k: int| p0 + 1 <= k < p1 implies s[k] != '.' by {
        assert(s[k] == d1[k - p0 - 1]);
    }
    assert forall|k: int| p1 + 1 <= k < p2 implies s[k] != '.' by {
        assert(s[k] == d2[k - p1 - 1]);
    }
    assert forall|k: int| p2 + 1 <= k < s.len() implies s[k] != '.' by {
        assert(s[k] == d3[k - p2 - 1]);
    }
}

proof fn lemma_ipv4_text_injective(o: (u8, u8, u8, u8), p: (u8, u8, u8, u8))
    requires
        ipv4_text(o) == ipv4_text(p),
    ensures
        o == p,
{
    lemma_ipv4_parts(o);
    lemma_ipv4_parts(p);
    lemma_decimal_octet(o.0);
    lemma_decimal_octet(o.1);
    lemma_decimal_octet(o.2);
    lemma_decimal_octet(o.3);
    lemma_decimal_octet(p.0);
    lemma_decimal_octet(p.1);
    lemma_decimal_octet(p.2);
    lemma_decimal_octet(p.3);
    let s = ipv4_text(o);
    let a0 = decimal(o.0 as nat).len() as int;
    let b0 = decimal(p.0 as nat).len() as int;
    lemma_group_end_unique(s, 0, a0, b0);
    let a1 = a0 + 1 + decimal(o.1 as nat).len();
    let b1 = b0 + 1 + decimal(p.1 as nat).len();
    lemma_group_end_unique(s, a0 + 1, a1, b1);
    let a2 = a1 + 1 + decimal(o.2 as nat).len();
    let b2 = b1 + 1 + decimal(p.2 as nat).len();
    lemma_group_end_unique(s, a1 + 1, a2, b2);
}

proof fn lemma_ipv4_text_unique(o: (u8, u8, u8, u8), s: Seq<char>)
    requires
        ipv4_text(o) == s,
    ensures
        parse_ipv4(s) == Some(o),
{
    let p = choose|p: (u8, u8, u8, u8)| ipv4_text(p) == s;
    lemma_ipv4_text_injective(o, p);
}

/// Where the groups of `ipv4_text(o)` end.
pub open spec fn ipv4_ends(o: (u8, u8, u8, u8)) -> (int, int, int) {
    let p0 = decimal(o.0 as nat).len() as int;
    let p1 = p0 + 1 + decimal(o.1 as nat).len();
    let p2 = p1 + 1 + decimal(o.2 as nat).len();
    (p0, p1, p2)
}

proof fn lemma_ipv4_ends(s: Seq<char>, o: (u8, u8, u8, u8))
    requires
        ipv4_text(o) == s,
    ensures
        forall|e: int| #[trigger] group_end(s, 0, e) ==> e == ipv4_ends(o).0,
        forall|e: int| #[trigger] group_end(s, ipv4_ends(o).0 + 1, e) ==> e == ipv4_ends(o).1,
        forall|e: int| #[trigger] group_end(s, ipv4_ends(o).1 + 1, e) ==> e == ipv4_ends(o).2,
        forall|e: int| #[trigger] group_end(s, ipv4_ends(o).2 + 1, e) ==> e == s.len(),
        ipv4_ends(o).0 < s.len() && ipv4_ends(o).1 < s.len() && ipv4_ends(o).2 < s.len(),
        is_octet_text(s.subrange(0, ipv4_ends(o).0)),
        is_octet_text(s.subrange(ipv4_ends(o).0 + 1, ipv4_ends(o).1)),
        is_octet_text(s.subrange(ipv4_ends(o).1 + 1, ipv4_ends(o).2)),
        is_octet_text(s.subrange(ipv4_ends(o).2 + 1, s.len() as int)),
        group_end(s, 0, ipv4_ends(o).0),
        group_end(s, ipv4_ends(o).0 + 1, ipv4_ends(o).1),
        group_end(s, ipv4_ends(o).1 + 1, ipv4_ends(o).2),
        group_end(s, ipv4_ends(o).2 + 1, s.len() as int),
{
    lemma_ipv4_parts(o);
    lemma_decimal_octet(o.0);
    lemma_decimal_octet(o.1);
    lemma_decimal_octet(o.2);
    lemma_decimal_octet(o.3);
    let (p0, p1, p2) = ipv4_ends(o);
    assert forall|e: int| #[trigger] group_end(s, 0, e) implies e == p0 by {
        lemma_group_end_unique(s, 0, e, p0);
    }
    assert forall|e: int| #[trigger] group_end(s, p0 + 1, e) implies e == p1 by {
        lemma_group_end_unique(s, p0 + 1, e, p1);
    }
    assert forall|e: int| #[trigger] group_end(s, p1 + 1, e) implies e == p2 by {
        lemma_group_end_unique(s, p1 + 1, e, p2);
    }
    assert forall|e: int| #[trigger] group_end(s, p2 + 1, e) implies e == s.len() by {
        lemma_group_end_unique(s, p2 + 1, e, s.len() as int);
    }
}

/// No address has the text `s` when its groups, read from the start, stop
/// fitting the layout of an address at group `k`.
proof fn lemma_reject(s: Seq<char>, k: int, e0: int, e1: int, e2: int, st: int, e3: int)
    requires
        0 <= k <= 3,
        st == (if k == 0 { 0 } else if k == 1 { e0 + 1 } else if k == 2 { e1 + 1 } else { e2 + 1 }),
        k > 0 ==> group_end(s, 0, e0) && e0 < s.len(),
        k > 1 ==> group_end(s, e0 + 1, e1) && e1 < s.len(),
        k > 2 ==> group_end(s, e1 + 1, e2) && e2 < s.len(),
        (forall|e: int| group_end(s, st, e) ==> !is_octet_text(#[trigger] s.subrange(st, e))) || (
        group_end(s, st, e3) && (k < 3 ==> e3 == s.len()) && (k == 3 ==> e3 < s.len())),
    ensures
        forall|o: (u8, u8, u8, u8)| ipv4_text(o) != s,
{
    assert forall|o: (u8, u8, u8, u8)| ipv4_text(o) != s by {
        if ipv4_text(o) == s {
            lemma_ipv4_ends(s, o);
        }
    }
}

/// Reads `s` as the dotted-decimal text of an IPv4 address.
pub fn parse_ipv4_chars(s: &Vec<char>) -> (r: Option<(u8, u8, u8, u8)>)
    ensures
        r == parse_ipv4(s@),
{
    let n = s.len();
    let (a, e0) = match read_octet(s, 0) {
        Some(x) => x,
        None => {
            proof { lemma_reject(s@, 0, 0, 0, 0, 0, 0); }
            return None;
        },
    };
    if e0 >= n {
        proof { lemma_reject(s@, 0, 0, 0, 0, 0, e0 as int); }
        return None;
    }
    let (b, e1) = match read_octet(s, e0 + 1) {
        Some(x) => x,
        None => {
            proof { lemma_reject(s@, 1, e0 as int, 0, 0, e0 + 1, 0); }
            return None;
        },
    };
    if e1 >= n {
        proof { lemma_reject(s@, 1, e0 as int, 0, 0, e0 + 1, e1 as int); }
        return None;
    }
    let (c, e2) = match read_octet(s, e1 + 1) {
        Some(x) => x,
        None => {
            proof { lemma_reject(s@, 2, e0 as int, e1 as int, 0, e1 + 1, 0); }
            return None;
        },
    };
    if e2 >= n {
        proof { lemma_reject(s@, 2, e0 as int, e1 as int, 0, e1 + 1, e2 as int); }
        return None;
    }
    let (d, e3) = match read_octet(s, e2 + 1) {
        Some(x) => x,
        None => {
            proof { lemma_reject(s@, 3, e0 as int, e1 as int, e2 as int, e2 + 1, 0); }
            return None;
        },
    };
    if e3 < n {
        proof { lemma_reject(s@, 3, e0 as int, e1 as int, e2 as int, e2 + 1, e3 as int); }
        return None;
    }
    proof {
        lemma_accept(s@, (a, b, c, d), e0 as int, e1 as int, e2 as int);
    }
    Some((a, b, c, d))
}

proof fn lemma_accept(s: Seq<char>, o: (u8, u8, u8, u8), e0: int, e1: int, e2: int)
    requires
        group_end(s, 0, e0) && e0 < s.len(),
        group_end(s, e0 + 1, e1) && e1 < s.len(),
        group_end(s, e1 + 1, e2) && e2 < s.len(),
        group_end(s, e2 + 1, s.len() as int),
        is_octet_text(s.subrange(0, e0)) && digits_value(s.subrange(0, e0)) == o.0,
        is_octet_text(s.subrange(e0 + 1, e1)) && digits_value(s.subrange(e0 + 1, e1)) == o.1,
        is_octet_text(s.subrange(e1 + 1, e2)) && digits_value(s.subrange(e1 + 1, e2)) == o.2,
        is_octet_text(s.subrange(e2 + 1, s.len() as int)) && digits_value(s.subrange(e2 + 1, s.len() as int)) == o.3,
    ensures
        parse_ipv4(s) == Some(o),
{
    lemma_octet_text_canonical(s.subrange(0, e0));
    lemma_octet_text_canonical(s.subrange(e0 + 1, e1));
    lemma_octet_text_canonical(s.subrange(e1 + 1, e2));
    lemma_octet_text_canonical(s.subrange(e2 + 1, s.len() as int));
    assert(ipv4_text(o) =~= s);
    lemma_ipv4_text_unique(o, s);
}

/// Appends the dotted-decimal text of `o` to `s`.
fn push_ipv4(s: &mut String, o: (u8, u8, u8, u8))
    ensures
        final(s)@ == old(s)@ + ipv4_text(o),
{
    push_decimal(s, o.0 as u64);
    s.push('.');
    push_decimal(s, o.1 as u64);
    s.push('.');
    push_decimal(s, o.2 as u64);
    s.push('.');
    push_decimal(s, o.3 as u64);
    assert(final(s)@ =~= old(s)@ + ipv4_text(o));
}

/// The dotted-decimal text of `o`, as `Ipv4Addr::to_string` gives it.
pub fn ipv4_to_string(o: (u8, u8, u8, u8)) -> (r: String)
    ensures
        r@ == ipv4_text(o),
{
    let mut s = String::new();
    push_ipv4(&mut s, o);
    s
}

/// What `tailscale ip -4` reported: whether it succeeded, and its standard
/// output read as text.
pub struct CommandOutput {
    pub success: bool,
    pub stdout: String,
}

/// The Tailscale address to use: `TAILSCALE_IP` when set and not empty;
/// else the trimmed output of `tailscale ip -4` when the command succeeded
/// and printed an IPv4 address in 100.64.0.0/10; else none.
pub open spec fn tailscale_choice(env_value: Option<Seq<char>>, output: Option<(bool, Seq<char>)>) -> Option<Seq<char>> {
    match env_value {
        Some(v) if v.len() > 0 => Some(v),
        _ => match output {
            Some((true, out)) => {
                let ip = trim(out);
                if ip.len() > 0 && parse_ipv4(ip) is Some && in_tailscale_range(parse_ipv4(ip)->0) {
                    Some(ip)
                } else {
                    None
                }
            },
            _ => None,
        },
    }
}

/// Chooses the Tailscale address from the `TAILSCALE_IP` variable and the
/// output of `tailscale ip -4` (when the command ran).
pub fn tailscale_ip_from(env_value: Option<String>, output: Option<CommandOutput>) -> (r: Option<String>)
    ensures
        r.deep_view() == tailscale_choice(
            env_value.deep_view(),
            match output {
                Some(o) => Some((o.success, o.stdout@)),
                None => None,
            },
        ),
{
    if let Some(v) = env_value {
        if to_chars(v.as_str()).len() > 0 {
            return Some(v);
        }
    }
    match output {
        Some(o) => {
            if !o.success {
                return None;
            }
            let ip = trim_chars(&to_chars(o.stdout.as_str()));
            if ip.len() == 0 {
                return None;
            }
            match parse_ipv4_chars(&ip) {
                Some(oct) => {
                    if oct.0 == 100 && (oct.1 & 0xc0) == 64 {
                        Some(crate::text::from_chars(ip.as_slice()))
                    } else {
                        None
                    }
                },
                None => None,
            }
        },
        None => None,
    }
}

/// A local IPv4 address that a phone can reach: neither a loopback
/// address (127.0.0.0/8) nor the unspecified address.
pub open spec fn usable_lan_address(o: (u8, u8, u8, u8)) -> bool {
    o.0 != 127 && o != (0u8, 0u8, 0u8, 0u8)
}

/// The text of the local address `o` that routing chose, when a phone can
/// reach it.
pub fn lan_address_text(o: (u8, u8, u8, u8)) -> (r: Option<String>)
    ensures
        r.deep_view() == (if usable_lan_address(o) { Some(ipv4_text(o)) } else { None }),
        r is Some <==> !(o.0 == 127 || (o.0 == 0 && o.1 == 0 && o.2 == 0 && o.3 == 0)),
        r matches Some(t) ==> parse_ipv4(t@) == Some(o),
{
    proof {
        lemma_lan_address(o);
    }
    if o.0 != 127 && !(o.0 == 0 && o.1 == 0 && o.2 == 0 && o.3 == 0) {
        Some(ipv4_to_string(o))
    } else {
        None
    }
}

/// Every local IPv4 address but the loopback network 127.0.0.0/8 and the
/// unspecified address 0.0.0.0 is advertised to phones, by a text that
/// reads back as that address.
pub proof fn lemma_lan_address(o: (u8, u8, u8, u8))
    ensures
        usable_lan_address(o) == !(o.0 == 127 || (o.0 == 0 && o.1 == 0 && o.2 == 0 && o.3 == 0)),
        parse_ipv4(ipv4_text(o)) == Some(o),
{
    lemma_ipv4_round_trip(o);
}

/// A variable's value when it is set and not empty.
pub fn non_empty(value: Option<String>) -> (r: Option<String>)
    ensures
        r.deep_view() == (match value.deep_view() {
            Some(v) => if v.len() > 0 { Some(v) } else { None },
            None => None,
        }),
{
    match value {
        Some(v) => if to_chars(v.as_str()).len() > 0 { Some(v) } else { None },
        None => None,
    }
}

// ---------------------------------------------------------------------------
// Connection details
// ---------------------------------------------------------------------------

/// The URL a client connects to: `ws://<host>:<port>/ws?token=<token>`.
pub fn connection_string(host: &str, port: u16, token: &str) -> (r: String)
    ensures
        r@ == "ws://"@ + host@ + ":"@ + decimal(port as nat) + "/ws?token="@ + token@,
{
    let mut s = "ws://".to_owned();
    push_str(&mut s, host);
    push_str(&mut s, ":");
    push_decimal(&mut s, port as u64);
    push_str(&mut s, "/ws?token=");
    push_str(&mut s, token);
    s
}

/// The socket address text the server binds: `<bind_addr>:<port>`.
pub fn bind_address(bind_addr: &str, port: u16) -> (r: String)
    ensures
        r@ == bind_addr@ + ":"@ + decimal(port as nat),
{
    let mut s = bind_addr.to_owned();
    push_str(&mut s, ":");
    push_decimal(&mut s, port as u64);
    s
}

/// The host to print and encode in the QR code: the detected host (else
/// `127.0.0.1`) when the server listens on the unspecified address, else
/// the address it listens on.
pub fn advertised_host(listens_unspecified: bool, listen_ip: String, detected: Option<String>) -> (r: String)
    ensures
        r@ == (if listens_unspecified {
            match detected {
                Some(d) => d@,
                None => "127.0.0.1"@,
            }
        } else {
            listen_ip@
        }),
{
    if listens_unspecified {
        match detected {
            Some(d) => d,
            None => "127.0.0.1".to_owned(),
        }
    } else {
        listen_ip
    }
}

// ---------------------------------------------------------------------------
// Workspace trust and the stored token
// ---------------------------------------------------------------------------

/// `t` is `word` up to the case of ASCII letters; `word` is lower case.
pub open spec fn eq_ignore_case(t: Seq<char>, word: Seq<char>) -> bool {
    &&& t.len() == word.len()
    &&& forall|i: int| 0 <= i < t.len() ==> (#[trigger] t[i] == word[i] || t[i] as u32 + 32 == word[i] as u32)
}

/// An answer that trusts the workspace: `y` or `yes` in any case, with
/// white space around it ignored. (The only characters whose lower case is
/// `y`, `e` or `s` are these letters and their capitals, so this is the
/// answer whose lower-cased trimmed text is `y` or `yes`.)
pub open spec fn trusts(answer: Seq<char>) -> bool {
    eq_ignore_case(trim(answer), seq!['y']) || eq_ignore_case(trim(answer), seq!['y', 'e', 's'])
}

fn eq_ignore_case_chars(t: &Vec<char>, word: &Vec<char>) -> (b: bool)
    ensures
        b == eq_ignore_case(t@, word@),
{
    if t.len() != word.len() {
        return false;
    }
    let mut i: usize = 0;
    while i < t.len()
        invariant
            i <= t@.len(),
            t@.len() == word@.len(),
            forall|k: int| 0 <= k < i ==> (#[trigger] t@[k] == word@[k] || t@[k] as u32 + 32 == word@[k] as u32),
        decreases t@.len() - i,
    {
        let c = t[i];
        let w = word[i];
        if !(c == w || (w as u32 >= 32 && c as u32 == w as u32 - 32)) {
            return false;
        }
        i = i + 1;
    }
    true
}

/// Whether the answer to the workspace trust prompt trusts the workspace.
pub fn is_trust_answer(answer: &str) -> (b: bool)
    ensures
        b == trusts(answer@),
{
    let t = trim_chars(&to_chars(answer));
    let y = vec!['y'];
    let yes = vec!['y', 'e', 's'];
    assert(y@ == seq!['y']);
    assert(yes@ == seq!['y', 'e', 's']);
    eq_ignore_case_chars(&t, &y) || eq_ignore_case_chars(&t, &yes)
}

/// The token that a token file with `contents` holds: its trimmed text,
/// when not empty (`None`: unreadable file).
pub open spec fn stored_token_text(contents: Option<Seq<char>>) -> Option<Seq<char>> {
    match contents {
        Some(c) => if trim(c).len() > 0 { Some(trim(c)) } else { None },
        None => None,
    }
}

/// The token stored in the token file: its trimmed text, when not empty
/// (`None` for an unreadable file).
pub fn stored_token(contents: Option<&str>) -> (r: Option<String>)
    ensures
        r.deep_view() == stored_token_text(contents.deep_view()),
{
    match contents {
        Some(c) => {
            let t = trim_chars(&to_chars(c));
            if t.len() > 0 {
                Some(crate::text::from_chars(t.as_slice()))
            } else {
                None
            }
        },
        None => None,
    }
}

// ---------------------------------------------------------------------------
// Configuration
// ---------------------------------------------------------------------------

/// Configuration for the WebSocket server.
pub struct WsConfig {
    /// Network interface to bind (Tailscale IP or 0.0.0.0).
    pub bind_addr: String,
    /// TCP port (default 7681).
    pub port: u16,
    /// Disable TLS (dev mode / trusted LAN).
    pub no_tls: bool,
    /// Working directory used as the session workspace.
    pub workspace_dir: String,
    /// Skip the interactive trust prompt.
    pub skip_trust_prompt: bool,
    /// Per-repo token override (GUI mode, skips the global token file).
    pub token_override: Option<String>,
    /// Repo id, for GUI-managed servers.
    pub repo_id: Option<String>,
}

impl WsConfig {
    /// The default configuration with `workspace_dir` as workspace: bind
    /// 0.0.0.0 on port 7681 without TLS, asking for trust, with the token
    /// from the token file.
    pub fn with_workspace(workspace_dir: String) -> (c: WsConfig)
        ensures
            c.bind_addr@ == "0.0.0.0"@,
            c.port == 7681,
            c.no_tls,
            c.workspace_dir == workspace_dir,
            !c.skip_trust_prompt,
            c.token_override is None,
            c.repo_id is None,
    {
        WsConfig {
            bind_addr: "0.0.0.0".to_owned(),
            port: 7681,
            no_tls: true,
            workspace_dir,
            skip_trust_prompt: false,
            token_override: None,
            repo_id: None,
        }
    }

    /// The configuration of a server that the desktop GUI runs for one repo:
    /// bind 0.0.0.0 on `port` without TLS or trust prompt, with the repo's
    /// token and id.
    pub fn for_repo(repo_id: String, repo_token: String, repo_path: String, port: u16) -> (c: WsConfig)
        ensures
            c.bind_addr@ == "0.0.0.0"@,
            c.port == port,
            c.no_tls,
            c.workspace_dir == repo_path,
            c.skip_trust_prompt,
            c.token_override == Some(repo_token),
            c.repo_id == Some(repo_id),
    {
        WsConfig {
            bind_addr: "0.0.0.0".to_owned(),
            port,
            no_tls: true,
            workspace_dir: repo_path,
            skip_trust_prompt: true,
            token_override: Some(repo_token),
            repo_id: Some(repo_id),
        }
    }
}


proof fn lemma_hex_bytes_alnum(b: Seq<u8>)
    ensures
        forall|i: int| 0 <= i < hex_bytes(b).len() ==> is_ascii_alnum(#[trigger] hex_bytes(b)[i]),
    decreases b.len(),
{
    if b.len() > 0 {
        lemma_hex_bytes_alnum(b.drop_last());
        let n = b.last() as nat;
        lemma_hex_alnum(n, false);
        let p = hex_bytes(b.drop_last());
        let t = hex2(n, false);
        let h = hex_bytes(b);
        assert(h == p + t);
        assert forall|i: int| 0 <= i < h.len() implies is_ascii_alnum(#[trigger] h[i]) by {
            if i < p.len() {
                assert(h[i] == p[i]);
            } else if n < 16 {
                if i > p.len() {
                    assert(h[i] == hex(n, false)[i - p.len() - 1]);
                }
            } else {
                assert(h[i] == hex(n, false)[i - p.len()]);
            }
        }
    }
}

/// A freshly made token, written to the token file, is read back as the
/// same token: its text (`hex_bytes` of 32 bytes, as `generate_token`
/// makes it) has no white space to trim and is not empty.
pub proof fn lemma_token_round_trip(b: Seq<u8>)
    requires
        b.len() == 32,
    ensures
        stored_token_text(Some(hex_bytes(b))) == Some(hex_bytes(b)),
{
    let t = hex_bytes(b);
    lemma_token_len(b);
    lemma_hex_bytes_alnum(b);
    assert(is_ascii_alnum(t[0]) && is_ascii_alnum(t.last()));
    lemma_trim_unchanged(t);
}

/// Formatting an IPv4 address as text and reading the text back gives the
/// address again.
pub proof fn lemma_ipv4_round_trip(o: (u8, u8, u8, u8))
    ensures
        parse_ipv4(ipv4_text(o)) == Some(o),
{
    lemma_ipv4_text_unique(o, ipv4_text(o));
}

proof fn lemma_bearer_token_of_header(token: Seq<u8>)
    requires
        forall|i: int| 0 <= i < token.len() ==> is_visible_ascii(#[trigger] token[i]),
    ensures
        bearer_token(seq![66u8, 101u8, 97u8, 114u8, 101u8, 114u8, 32u8] + token) == Some(ascii_text(token)),
{
    let h = seq![66u8, 101u8, 97u8, 114u8, 101u8, 114u8, 32u8] + token;
    let t = ascii_text(h);
    assert forall|i: int| 0 <= i < h.len() implies is_visible_ascii(#[trigger] h[i]) by {
        if i >= 7 {
            assert(h[i] == token[i - 7]);
        }
    }
    assert(t.subrange(0, 7) =~= bearer_prefix());
    assert(t.subrange(7, t.len() as int) =~= ascii_text(token));
}

/// The header value `Bearer <token>` (as ASCII bytes) carries `token`, for
/// every token of visible ASCII characters.
pub proof fn lemma_bearer_header_authorizes(token: Seq<u8>)
    requires
        forall|i: int| 0 <= i < token.len() ==> is_visible_ascii(#[trigger] token[i]),
    ensures
        authorized(Some(seq![66u8, 101u8, 97u8, 114u8, 101u8, 114u8, 32u8] + token), None, ascii_text(token)),
{
    lemma_bearer_token_of_header(token);
}

/// A request whose header carries `Bearer <token>` for a token other than
/// the expected one, and whose query token (if any) is not the expected
/// one either, is refused.
pub proof fn lemma_wrong_bearer_refused(token: Seq<u8>, query: Option<Seq<char>>, expected: Seq<char>)
    requires
        forall|i: int| 0 <= i < token.len() ==> is_visible_ascii(#[trigger] token[i]),
        ascii_text(token) != expected,
        query != Some(expected),
    ensures
        !authorized(Some(seq![66u8, 101u8, 97u8, 114u8, 101u8, 114u8, 32u8] + token), query, expected),
{
    lemma_bearer_token_of_header(token);
}

/// Either credential alone admits a request, whatever the other one holds:
/// a header `Bearer <token>` (visible ASCII) admits it for `token` with any
/// query token, and a query token equal to the expected one admits it with
/// any header.
pub proof fn lemma_either_credential_authorizes(
    token: Seq<u8>,
    header: Option<Seq<u8>>,
    query: Option<Seq<char>>,
    expected: Seq<char>,
)
    ensures
        (forall|i: int| 0 <= i < token.len() ==> is_visible_ascii(#[trigger] token[i])) ==> authorized(
            Some(seq![66u8, 101u8, 97u8, 114u8, 101u8, 114u8, 32u8] + token),
            query,
            ascii_text(token),
        ),
        authorized(header, Some(expected), expected),
{
    if forall|i: int| 0 <= i < token.len() ==> is_visible_ascii(#[trigger] token[i]) {
        lemma_bearer_token_of_header(token);
    }
}

/// A request without credentials, or with only a query token other than
/// the expected one, is refused.
pub proof fn lemma_wrong_or_missing_token_refused(query: Option<Seq<char>>, expected: Seq<char>)
    requires
        query != Some(expected),
    ensures
        !authorized(None, query, expected),
{
}

} // verus!
