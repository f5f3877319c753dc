//! IP addresses and their textual forms.

use vstd::prelude::*;

use crate::text::{
    all_digits, chars_of, dec, decimals_stand_for_their_number, digits_value, first_at,
    is_digit, only, parse_u64, passes, pieces, pieces_end_at_separators, split_by, One,
};

verus! {

/// An IP address.
#[derive(Debug)]
pub enum IpAddr {
    V4(u8, u8, u8, u8),
    V6([u16; 8]),
}

/// What an address stands for.
pub enum IpView {
    V4(u8, u8, u8, u8),
    V6(Seq<u16>),
}

impl View for IpAddr {
    type V = IpView;

    open spec fn view(&self) -> IpView {
        match *self {
            IpAddr::V4(a, b, c, d) => IpView::V4(a, b, c, d),
            IpAddr::V6(s) => IpView::V6(s@),
        }
    }
}

impl DeepView for IpAddr {
    type V = IpView;

    open spec fn deep_view(&self) -> IpView {
        self@
    }
}

/// One number of a dotted quad: up to three digits, no superfluous zero in
/// front, at most 255.
pub open spec fn octet(s: Seq<char>) -> Option<u8> {
    if all_digits(s) && s.len() <= 3 && (s.len() > 1 ==> s[0] != '0') && digits_value(s) <= 255 {
        Some(digits_value(s) as u8)
    } else {
        None
    }
}

/// The address a dotted quad stands for.
pub open spec fn quad(s: Seq<char>) -> Option<(u8, u8, u8, u8)> {
    let p = pieces(s, only('.'));
    if p.len() == 4 {
        match (octet(p[0]), octet(p[1]), octet(p[2]), octet(p[3])) {
            (Some(a), Some(b), Some(c), Some(d)) => Some((a, b, c, d)),
            _ => None,
        }
    } else {
        None
    }
}

pub open spec fn hex_value(c: char) -> Option<int> {
    if '0' <= c && c <= '9' {
        Some((c as int) - ('0' as int))
    } else if 'a' <= c && c <= 'f' {
        Some((c as int) - ('a' as int) + 10)
    } else if 'A' <= c && c <= 'F' {
        Some((c as int) - ('A' as int) + 10)
    } else {
        None
    }
}

/// The value of a sequence of hexadecimal digits.
pub open spec fn hex_number(s: Seq<char>) -> Option<int>
    decreases s.len(),
{
    if s.len() == 0 {
        Some(0)
    } else {
        match (hex_number(s.drop_last()), hex_value(s.last())) {
            (Some(n), Some(d)) => Some(16 * n + d),
            _ => None,
        }
    }
}

/// One group of an IPv6 address: one to four hexadecimal digits.
pub open spec fn group(s: Seq<char>) -> Option<u16> {
    if 1 <= s.len() <= 4 {
        match hex_number(s) {
            Some(n) => Some(n as u16),
            None => None,
        }
    } else {
        None
    }
}

/// The groups that colon-separated pieces stand for. A dotted quad may stand
/// last, as two groups, where `quad_ok`.
pub open spec fn groups(ps: Seq<Seq<char>>, quad_ok: bool) -> Option<Seq<u16>>
    decreases ps.len(),
{
    if ps.len() == 0 {
        Some(seq![])
    } else if quad_ok && ps.len() == 1 && quad(ps[0]) is Some {
        let (a, b, c, d) = quad(ps[0])->Some_0;
        Some(seq![(256 * a + b) as u16, (256 * c + d) as u16])
    } else {
        match (group(ps[0]), groups(ps.skip(1), quad_ok)) {
            (Some(g), Some(rest)) => Some(seq![g] + rest),
            _ => None,
        }
    }
}

/// The groups of one side of `::`; an empty side has none.
pub open spec fn side(s: Seq<char>, quad_ok: bool) -> Option<Seq<u16>> {
    if s.len() == 0 {
        Some(seq![])
    } else {
        groups(pieces(s, only(':')), quad_ok)
    }
}

/// Where `::` first occurs, or -1.
pub open spec fn gap_at(s: Seq<char>) -> int
    decreases s.len(),
{
    if s.len() < 2 {
        -1
    } else if s[0] == ':' && s[1] == ':' {
        0
    } else {
        let i = gap_at(s.skip(1));
        if i < 0 {
            -1
        } else {
            i + 1
        }
    }
}

/// The eight groups an IPv6 address stands for: all of them written out, or one
/// `::` in place of one or more zero groups.
pub open spec fn eight(s: Seq<char>) -> Option<Seq<u16>> {
    let i = gap_at(s);
    if i < 0 {
        match side(s, true) {
            Some(g) => if g.len() == 8 {
                Some(g)
            } else {
                None
            },
            None => None,
        }
    } else {
        match (side(s.take(i), false), side(s.skip(i + 2), true)) {
            (Some(h), Some(t)) => if h.len() + t.len() <= 7 {
                Some(h + Seq::new((8 - h.len() - t.len()) as nat, |k: int| 0u16) + t)
            } else {
                None
            },
            _ => None,
        }
    }
}

/// The address a string stands for.
pub open spec fn ip_of(s: Seq<char>) -> Option<IpView> {
    match quad(s) {
        Some((a, b, c, d)) => Some(IpView::V4(a, b, c, d)),
        None => match eight(s) {
            Some(g) => Some(IpView::V6(g)),
            None => None,
        },
    }
}

/// One digit between dots is that number.
proof fn lemma_digit_octet(c: char)
    requires
        is_digit(c),
    ensures
        octet(seq![c]) == Some(((c as u32) - ('0' as u32)) as u8),
{
    reveal_with_fuel(digits_value, 2);
    assert(seq![c].drop_last() =~= Seq::<char>::empty());
    assert(seq![c].last() == c);
}

/// The pieces of a text that starts with one digit and a dot.
proof fn lemma_after_digit(c: char, rest: Seq<char>)
    requires
        is_digit(c),
    ensures
        pieces(seq![c, '.'] + rest, only('.')) == seq![seq![c]] + pieces(rest, only('.')),
{
    let s = seq![c, '.'] + rest;
    reveal_with_fuel(first_at, 2);
    assert(s.skip(1)[0] == '.');
    assert(first_at(s, only('.')) == 1);
    assert(s.take(1) =~= seq![c]);
    assert(s.skip(2) =~= rest);
}

/// Four digits with dots between them are an address.
pub proof fn lemma_single_digits(a: char, b: char, c: char, d: char)
    requires
        is_digit(a),
        is_digit(b),
        is_digit(c),
        is_digit(d),
    ensures
        ip_of(seq![a, '.', b, '.', c, '.', d]) == Some(
            IpView::V4(
                ((a as u32) - ('0' as u32)) as u8,
                ((b as u32) - ('0' as u32)) as u8,
                ((c as u32) - ('0' as u32)) as u8,
                ((d as u32) - ('0' as u32)) as u8,
            ),
        ),
{
    let last = seq![d];
    let third = seq![c, '.'] + last;
    let second = seq![b, '.'] + third;
    let all = seq![a, '.'] + second;
    assert(seq![a, '.', b, '.', c, '.', d] =~= all);
    lemma_after_digit(a, second);
    lemma_after_digit(b, third);
    lemma_after_digit(c, last);
    reveal_with_fuel(first_at, 2);
    assert(first_at(last, only('.')) == 1);
    assert(pieces(last, only('.')) =~= seq![last]);
    assert(pieces(all, only('.')) =~= seq![seq![a], seq![b], seq![c], seq![d]]);
    lemma_digit_octet(a);
    lemma_digit_octet(b);
    lemma_digit_octet(c);
    lemma_digit_octet(d);
}

fn read_octet(s: &str) -> (r: Option<u8>)
    ensures
        r == octet(s@),
{
    let cs = chars_of(s);
    if cs.len() == 0 || cs.len() > 3 || (cs.len() > 1 && cs[0] == '0') || cs[0] == '+' {
        assert(cs@.len() > 0 && cs@[0] == '+' ==> !is_digit(s@[0]));
        return None;
    }
    match parse_u64(s) {
        Some(v) => if v <= 255 {
            Some(v as u8)
        } else {
            None
        },
        None => {
            proof {
                if all_digits(s@) {
                    lemma_three_digits(s@);
                }
            }
            None
        },
    }
}

proof fn lemma_three_digits(s: Seq<char>)
    requires
        all_digits(s),
        s.len() <= 3,
    ensures
        digits_value(s) <= 999,
{
    reveal_with_fuel(digits_value, 4);
    assert(is_digit(s[s.len() - 1]));
    if s.len() >= 2 {
        assert(s.drop_last().last() == s[s.len() - 2]);
        assert(is_digit(s[s.len() - 2]));
    }
    if s.len() >= 3 {
        assert(s.drop_last().drop_last().last() == s[0]);
        assert(is_digit(s[0]));
    }
}

fn read_quad(s: &str) -> (r: Option<(u8, u8, u8, u8)>)
    ensures
        r == quad(s@),
{
    assert(passes(One('.')) =~= only('.'));
    let p = split_by(s, One('.'));
    assert(p.deep_view().len() == p@.len());
    if p.len() != 4 {
        return None;
    }
    match (
        read_octet(p[0].as_str()),
        read_octet(p[1].as_str()),
        read_octet(p[2].as_str()),
        read_octet(p[3].as_str()),
    ) {
        (Some(a), Some(b), Some(c), Some(d)) => Some((a, b, c, d)),
        _ => None,
    }
}

fn read_hex(c: char) -> (r: Option<u16>)
    ensures
        r is Some == (hex_value(c) is Some),
        r matches Some(v) ==> v < 16 && hex_value(c) == Some(v as int),
{
    if '0' <= c && c <= '9' {
        Some((c as u32 - '0' as u32) as u16)
    } else if 'a' <= c && c <= 'f' {
        Some((c as u32 - 'a' as u32 + 10) as u16)
    } else if 'A' <= c && c <= 'F' {
        Some((c as u32 - 'A' as u32 + 10) as u16)
    } else {
        None
    }
}

proof fn lemma_hex_prefix(s: Seq<char>, k: int)
    requires
        0 <= k <= s.len(),
        hex_number(s.take(k)) is None,
    ensures
        hex_number(s) is None,
    decreases s.len() - k,
{
    if k < s.len() {
        assert(s.take(k + 1).drop_last() =~= s.take(k));
        lemma_hex_prefix(s, k + 1);
    } else {
        assert(s.take(k) =~= s);
    }
}

fn read_group(s: &str) -> (r: Option<u16>)
    ensures
        r == group(s@),
{
    let cs = chars_of(s);
    if cs.len() == 0 || cs.len() > 4 {
        return None;
    }
    let mut v: u32 = 0;
    let mut top: u32 = 1;
    assert(s@.take(0) =~= seq![]);
    for i in 0..cs.len()
        invariant
            cs@ == s@,
            cs@.len() <= 4,
            hex_number(s@.take(i as int)) == Some(v as int),
            v < top,
            i == 0 ==> top == 1,
            i == 1 ==> top == 16,
            i == 2 ==> top == 256,
            i == 3 ==> top == 4096,
            i == 4 ==> top == 65536,
    {
        assert(s@.take(i + 1).drop_last() =~= s@.take(i as int));
        match read_hex(cs[i]) {
            Some(d) => {
                v = 16 * v + d as u32;
                top = 16 * top;
            },
            None => {
                proof {
                    lemma_hex_prefix(s@, i + 1);
                }
                return None;
            },
        }
    }
    assert(s@.take(cs@.len() as int) =~= s@);
    Some(v as u16)
}

fn read_groups(ps: &Vec<String>, from: usize, quad_ok: bool) -> (r: Option<Vec<u16>>)
    requires
        from <= ps@.len(),
    ensures
        match r {
            Some(g) => groups(ps.deep_view().skip(from as int), quad_ok) == Some(g@),
            None => groups(ps.deep_view().skip(from as int), quad_ok) is None,
        },
    decreases ps@.len() - from,
{
    let ghost rest = ps.deep_view().skip(from as int);
    if from == ps.len() {
        let g: Vec<u16> = Vec::new();
        assert(g@ =~= seq![]);
        return Some(g);
    }
    assert(rest[0] == ps@[from as int]@);
    if quad_ok && ps.len() - from == 1 {
        match read_quad(ps[from].as_str()) {
            Some((a, b, c, d)) => {
                let mut g: Vec<u16> = Vec::new();
                g.push(256 * (a as u16) + b as u16);
                g.push(256 * (c as u16) + d as u16);
                assert(g@ =~= seq![(256 * a + b) as u16, (256 * c + d) as u16]);
                return Some(g);
            },
            None => {},
        }
    }
    assert(rest.skip(1) =~= ps.deep_view().skip(from + 1));
    match read_group(ps[from].as_str()) {
        Some(x) => match read_groups(ps, from + 1, quad_ok) {
            Some(more) => {
                let mut g: Vec<u16> = Vec::new();
                g.push(x);
                let mut more = more;
                g.append(&mut more);
                assert(g@ =~= seq![x] + groups(rest.skip(1), quad_ok)->Some_0);
                Some(g)
            },
            None => None,
        },
        None => None,
    }
}

fn read_side(s: &str, quad_ok: bool) -> (r: Option<Vec<u16>>)
    ensures
        match r {
            Some(g) => side(s@, quad_ok) == Some(g@),
            None => side(s@, quad_ok) is None,
        },
{
    if s.unicode_len() == 0 {
        let g: Vec<u16> = Vec::new();
        assert(g@ =~= seq![]);
        return Some(g);
    }
    assert(passes(One(':')) =~= only(':'));
    let ps = split_by(s, One(':'));
    assert(ps.deep_view().skip(0) =~= ps.deep_view());
    read_groups(&ps, 0, quad_ok)
}

proof fn lemma_gap_shift(s: Seq<char>, k: int)
    requires
        0 <= k <= s.len(),
        forall|j: int| 0 <= j < k && j + 1 < s.len() ==> !(#[trigger] s[j] == ':' && s[j + 1] == ':'),
    ensures
        gap_at(s.skip(k)) < 0 ==> gap_at(s) < 0,
        gap_at(s.skip(k)) >= 0 ==> gap_at(s) == gap_at(s.skip(k)) + k,
    decreases k,
{
    if k > 0 {
        assert forall|j: int| 0 <= j < k - 1 && j + 1 < s.len() implies !(#[trigger] s[j] == ':'
            && s[j + 1] == ':') by {}
        lemma_gap_shift(s, k - 1);
        let t = s.skip(k - 1);
        assert(t.skip(1) =~= s.skip(k));
        assert(t[0] == s[k - 1]);
        if t.len() >= 2 {
            assert(t[1] == s[k]);
        }
    } else {
        assert(s.skip(0) =~= s);
    }
}

/// Where `::` first occurs.
fn find_gap(cs: &Vec<char>) -> (r: Option<usize>)
    ensures
        match r {
            Some(i) => gap_at(cs@) == i && i + 2 <= cs@.len(),
            None => gap_at(cs@) < 0,
        },
{
    let n: usize = cs.len();
    let mut i: usize = 0;
    while i < n && n - i >= 2
        invariant
            i <= n,
            n == cs@.len(),
            forall|j: int|
                0 <= j < i && j + 1 < cs@.len() ==> !(#[trigger] cs@[j] == ':' && cs@[j + 1]
                    == ':'),
        decreases n - i,
    {
        if cs[i] == ':' && cs[i + 1] == ':' {
            proof {
                lemma_gap_shift(cs@, i as int);
                assert(cs@.skip(i as int)[0] == ':');
                assert(cs@.skip(i as int)[1] == ':');
            }
            return Some(i);
        }
        i = i + 1;
    }
    proof {
        lemma_gap_shift(cs@, i as int);
    }
    None
}

fn read_eight(s: &str) -> (r: Option<Vec<u16>>)
    ensures
        match r {
            Some(g) => eight(s@) == Some(g@) && g@.len() == 8,
            None => eight(s@) is None,
        },
{
    let cs = chars_of(s);
    match find_gap(&cs) {
        None => match read_side(s, true) {
            Some(g) => if g.len() == 8 {
                Some(g)
            } else {
                None
            },
            None => None,
        },
        Some(i) => {
            let n = s.unicode_len();
            let head = s.substring_char(0, i);
            let tail = s.substring_char(i + 2, n);
            assert(head@ =~= s@.take(i as int));
            assert(tail@ =~= s@.skip(i + 2));
            match (read_side(head, false), read_side(tail, true)) {
                (Some(h), Some(t)) => {
                    let hn: usize = h.len();
                    let tn: usize = t.len();
                    if hn > 7 || tn > 7 || hn + tn > 7 {
                        return None;
                    }
                    let ghost zeros = Seq::new((8 - hn - tn) as nat, |k: int| 0u16);
                    let ghost hs = h@;
                    let ghost ts = t@;
                    let mut g = h;
                    let mut t = t;
                    let pad: usize = 8 - hn - tn;
                    for k in 0..pad
                        invariant
                            pad == 8 - hn - tn,
                            zeros == Seq::new(pad as nat, |k: int| 0u16),
                            g@ =~= hs + zeros.take(k as int),
                    {
                        g.push(0);
                        assert(zeros.take(k + 1) =~= zeros.take(k as int).push(0u16));
                    }
                    assert(zeros.take(pad as int) =~= zeros);
                    g.append(&mut t);
                    assert(g@ =~= hs + zeros + ts);
                    Some(g)
                },
                _ => None,
            }
        },
    }
}

impl IpAddr {
    /// The address a string stands for.
    pub fn parse(s: &str) -> (r: Option<IpAddr>)
        ensures
            r.deep_view() == ip_of(s@),
    {
        match read_quad(s) {
            Some((a, b, c, d)) => Some(IpAddr::V4(a, b, c, d)),
            None => match read_eight(s) {
                Some(g) => {
                    let a = [g[0], g[1], g[2], g[3], g[4], g[5], g[6], g[7]];
                    assert(a@ =~= g@);
                    Some(IpAddr::V6(a))
                },
                None => None,
            },
        }
    }
}

proof fn lemma_octet_len(n: nat)
    requires
        n < 256,
    ensures
        dec(n).len() <= 3,
        octet(dec(n)) == Some(n as u8),
        !dec(n).contains('.'),
{
    reveal_with_fuel(dec, 4);
    decimals_stand_for_their_number(n);
    let s = dec(n);
    if s.contains('.') {
        let k = choose|k: int| 0 <= k < s.len() && s[k] == '.';
        assert(is_digit(s[k]));
    }
}

/// Every IPv4 address is read from its four numbers with dots between them.
pub proof fn dotted_addresses_are_read(a: u8, b: u8, c: u8, d: u8)
    ensures
        ip_of(
            dec(a as nat) + seq!['.'] + dec(b as nat) + seq!['.'] + dec(c as nat) + seq!['.'] + dec(
                d as nat,
            ),
        ) == Some(IpView::V4(a, b, c, d)),
{
    let p = dec(a as nat);
    let q = dec(b as nat);
    let r = dec(c as nat);
    let s = dec(d as nat);
    lemma_octet_len(a as nat);
    lemma_octet_len(b as nat);
    lemma_octet_len(c as nat);
    lemma_octet_len(d as nat);
    lemma_four(p, q, r, s);
}

proof fn lemma_four(p: Seq<char>, q: Seq<char>, r: Seq<char>, s: Seq<char>)
    requires
        !p.contains('.'),
        !q.contains('.'),
        !r.contains('.'),
        !s.contains('.'),
    ensures
        pieces(p + seq!['.'] + q + seq!['.'] + r + seq!['.'] + s, only('.')) == seq![p, q, r, s],
{
    let t3 = r.push('.') + s;
    let t2 = q.push('.') + t3;
    let t1 = p.push('.') + t2;
    let head = p + seq!['.'] + q + seq!['.'];
    assert(head + r + seq!['.'] + s =~= head + t3);
    assert(head + t3 =~= p + seq!['.'] + t2);
    assert(p + seq!['.'] + t2 =~= t1);
    lemma_dot(p, t2);
    lemma_dot(q, t3);
    lemma_dot(r, s);
    lemma_dot(s, s);
    assert(pieces(t3, only('.')) =~= seq![r, s]);
    assert(pieces(t2, only('.')) =~= seq![q, r, s]);
    assert(pieces(t1, only('.')) =~= seq![p, q, r, s]);
}

proof fn lemma_dot(p: Seq<char>, rest: Seq<char>)
    requires
        !p.contains('.'),
    ensures
        pieces(p.push('.') + rest, only('.')) == seq![p] + pieces(rest, only('.')),
        pieces(p, only('.')) == seq![p],
{
    assert forall|i: int| 0 <= i < p.len() implies !only('.')(#[trigger] p[i]) by {
        assert(p.contains(p[i]));
    }
    pieces_end_at_separators(p, '.', rest, only('.'));
}

/// A number with a superfluous zero in front, with a sign, or over 255 is none of
/// an address.
pub proof fn other_numbers_are_no_octets(s: Seq<char>, i: int)
    ensures
        s.len() > 1 && s[0] == '0' ==> octet(s) is None,
        s.len() == 0 || s.len() > 3 ==> octet(s) is None,
        0 <= i < s.len() && !('0' <= s[i] && s[i] <= '9') ==> octet(s) is None,
        octet(s) matches Some(n) ==> n == digits_value(s),
{
    if 0 <= i < s.len() && !('0' <= s[i] && s[i] <= '9') {
        assert(!is_digit(s[i]));
    }
}

/// A hexadecimal digit more is sixteen times the value and that of the digit, in
/// either case.
pub proof fn hex_digits_add_up(s: Seq<char>, d: int, upper: bool)
    requires
        0 <= d < 16,
        hex_number(s) is Some,
    ensures
        ({
            let c = if d < 10 {
                (48 + d) as char
            } else if upper {
                (55 + d) as char
            } else {
                (87 + d) as char
            };
            &&& hex_number(s.push(c)) == Some(16 * hex_number(s)->Some_0 + d)
            &&& hex_number(seq![]) == Some(0int)
        }),
{
    let c = if d < 10 {
        (48 + d) as char
    } else if upper {
        (55 + d) as char
    } else {
        (87 + d) as char
    };
    assert(s.push(c).drop_last() =~= s);
}

/// A piece between colons is one group, of one to four hexadecimal digits.
pub proof fn pieces_are_groups(ps: Seq<Seq<char>>, i: int)
    requires
        groups(ps, false) is Some,
        0 <= i < ps.len(),
    ensures
        groups(ps, false)->Some_0.len() == ps.len(),
        1 <= ps[i].len() <= 4,
        Some(groups(ps, false)->Some_0[i]) == group(ps[i]),
    decreases ps.len(),
{
    let rest = ps.skip(1);
    if rest.len() > 0 {
        pieces_are_groups(
            rest,
            if i > 0 {
                i - 1
            } else {
                0
            },
        );
        if i > 0 {
            assert(rest[i - 1] == ps[i]);
        }
    } else {
        assert(groups(rest, false)->Some_0.len() == 0);
    }
}

/// A double colon stands for as many zero groups as are missing: what is written
/// before it comes first, what is written behind it last.
pub proof fn a_double_colon_stands_for_zeros(s: Seq<char>, i: int, k: int)
    requires
        0 <= i < s.len() - 1,
        s[i] == ':',
        s[i + 1] == ':',
        forall|j: int| 0 <= j < i ==> !(#[trigger] s[j] == ':' && s[j + 1] == ':'),
        side(s.take(i), false) is Some,
        side(s.skip(i + 2), true) is Some,
        side(s.take(i), false)->Some_0.len() + side(s.skip(i + 2), true)->Some_0.len() <= 7,
        0 <= k < 8,
    ensures
        ({
            let h = side(s.take(i), false)->Some_0;
            let t = side(s.skip(i + 2), true)->Some_0;
            &&& eight(s) matches Some(g) && g.len() == 8 && (k < h.len() ==> g[k] == h[k]) && (k >= 8
                - t.len() ==> g[k] == t[k - (8 - t.len())]) && (h.len() <= k < 8 - t.len() ==> g[k]
                == 0)
        }),
{
    lemma_gap(s, i);
}

proof fn lemma_gap(s: Seq<char>, i: int)
    requires
        0 <= i < s.len() - 1,
        s[i] == ':',
        s[i + 1] == ':',
        forall|j: int| 0 <= j < i ==> !(#[trigger] s[j] == ':' && s[j + 1] == ':'),
    ensures
        gap_at(s) == i,
    decreases i,
{
    if i > 0 {
        let t = s.skip(1);
        assert(!(s[0] == ':' && s[1] == ':'));
        assert(t[i - 1] == s[i] && t[i] == s[i + 1]);
        assert forall|j: int| 0 <= j < i - 1 implies !(#[trigger] t[j] == ':' && t[j + 1]
            == ':') by {
            assert(t[j] == s[j + 1] && t[j + 1] == s[j + 2]);
            assert(!(s[j + 1] == ':' && s[j + 2] == ':'));
        }
        lemma_gap(t, i - 1);
    }
}

} // verus!
