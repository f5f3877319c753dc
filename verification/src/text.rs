//! Text as sequences of characters: the operations the rest of the crate is
//! stated in, and their executable counterparts.

use vstd::prelude::*;

verus! {

/// `String::push` appends one character to the end of the string.
pub assume_specification[ String::push ](s: &mut String, c: char)
    ensures
        final(s)@ == old(s)@.push(c),
;

// ---------------------------------------------------------------------------
// Characters
// ---------------------------------------------------------------------------

/// The ASCII lower-case form of a character; every other character is itself.
pub open spec fn lower_char(c: char) -> char {
    if 'A' <= c && c <= 'Z' {
        ((c as u32) + 32) as char
    } else {
        c
    }
}

/// The characters with the Unicode `White_Space` property.
pub open spec fn is_space(c: char) -> bool {
    let u = c as u32;
    ||| 0x09 <= u <= 0x0d
    ||| u == 0x20
    ||| u == 0x85
    ||| u == 0xa0
    ||| u == 0x1680
    ||| 0x2000 <= u <= 0x200a
    ||| u == 0x2028
    ||| u == 0x2029
    ||| u == 0x202f
    ||| u == 0x205f
    ||| u == 0x3000
}

pub fn to_lower_char(c: char) -> (r: char)
    ensures
        r == lower_char(c),
{
    if 'A' <= c && c <= 'Z' {
        ((c as u8) + 32) as char
    } else {
        c
    }
}

pub fn is_white_space(c: char) -> (r: bool)
    ensures
        r == is_space(c),
{
    let u: u32 = c as u32;
    (0x09 <= u && u <= 0x0d) || u == 0x20 || u == 0x85 || u == 0xa0 || u == 0x1680 || (0x2000 <= u
        && u <= 0x200a) || u == 0x2028 || u == 0x2029 || u == 0x202f || u == 0x205f || u == 0x3000
}

// ---------------------------------------------------------------------------
// Conversions and comparison
// ---------------------------------------------------------------------------

/// The characters of `s`.
pub fn chars_of(s: &str) -> (r: Vec<char>)
    ensures
        r@ == s@,
{
    let mut r: Vec<char> = Vec::new();
    for c in it: s.chars()
        invariant
            r@ =~= it.seq().take(it.index()),
            it.seq() == s@,
    {
        r.push(c);
    }
    r
}

/// The string made of the characters `cs`.
pub fn string_of(cs: &Vec<char>) -> (r: String)
    ensures
        r@ == cs@,
{
    let mut r = String::new();
    for i in 0..cs.len()
        invariant
            r@ =~= cs@.take(i as int),
    {
        r.push(cs[i]);
    }
    r
}

/// Whether two strings hold the same characters.
pub fn same(a: &str, b: &str) -> (r: bool)
    ensures
        r == (a@ == b@),
{
    let x = chars_of(a);
    let y = chars_of(b);
    if x.len() != y.len() {
        return false;
    }
    for i in 0..x.len()
        invariant
            x@.len() == y@.len(),
            x@ == a@,
            y@ == b@,
            forall|j: int| 0 <= j < i ==> x@[j] == y@[j],
    {
        if x[i] != y[i] {
            return false;
        }
    }
    assert(a@ =~= b@);
    true
}

/// `s` in ASCII lower case.
pub open spec fn lower(s: Seq<char>) -> Seq<char> {
    Seq::new(s.len(), |i: int| lower_char(s[i]))
}

/// `s` in ASCII upper case.
pub open spec fn upper(s: Seq<char>) -> Seq<char> {
    Seq::new(
        s.len(),
        |i: int|
            if 'a' <= s[i] && s[i] <= 'z' {
                ((s[i] as u32) - 32) as char
            } else {
                s[i]
            },
    )
}

/// A text and its upper-case form are the same in lower case.
pub proof fn lemma_lower_of_upper(s: Seq<char>)
    ensures
        lower(upper(s)) == lower(s),
{
    assert(lower(upper(s)) =~= lower(s));
}

pub fn to_lower(s: &str) -> (r: String)
    ensures
        r@ == lower(s@),
{
    let cs = chars_of(s);
    let mut r = String::new();
    for i in 0..cs.len()
        invariant
            cs@ == s@,
            r@ =~= lower(s@).take(i as int),
    {
        r.push(to_lower_char(cs[i]));
    }
    assert(lower(s@).take(cs@.len() as int) =~= lower(s@));
    r
}

/// Whether two strings are equal up to ASCII case.
pub fn same_ignore_case(a: &str, b: &str) -> (r: bool)
    ensures
        r == (lower(a@) == lower(b@)),
{
    let x = to_lower(a);
    let y = to_lower(b);
    x == y
}

// ---------------------------------------------------------------------------
// Trimming
// ---------------------------------------------------------------------------

/// `s` without its longest prefix of characters that satisfy `p`.
pub open spec fn drop_leading(s: Seq<char>, p: spec_fn(char) -> bool) -> Seq<char>
    decreases s.len(),
{
    if s.len() > 0 && p(s[0]) {
        drop_leading(s.skip(1), p)
    } else {
        s
    }
}

/// `s` without its longest suffix of characters that satisfy `p`.
pub open spec fn drop_trailing(s: Seq<char>, p: spec_fn(char) -> bool) -> Seq<char>
    decreases s.len(),
{
    if s.len() > 0 && p(s.last()) {
        drop_trailing(s.drop_last(), p)
    } else {
        s
    }
}

pub open spec fn spaces() -> spec_fn(char) -> bool {
    |c: char| is_space(c)
}

pub open spec fn only(d: char) -> spec_fn(char) -> bool {
    |c: char| c == d
}

/// `s` without white space at either end.
pub open spec fn trimmed(s: Seq<char>) -> Seq<char> {
    drop_trailing(drop_leading(s, spaces()), spaces())
}

/// A predicate on characters that can be evaluated.
pub trait CharTest: Sized {
    spec fn holds(&self, c: char) -> bool;

    fn test(&self, c: char) -> (r: bool)
        ensures
            r == self.holds(c),
    ;
}

/// White space.
pub struct Space;

impl CharTest for Space {
    open spec fn holds(&self, c: char) -> bool {
        is_space(c)
    }

    fn test(&self, c: char) -> (r: bool) {
        is_white_space(c)
    }
}

/// One given character.
pub struct One(pub char);

impl CharTest for One {
    open spec fn holds(&self, c: char) -> bool {
        c == self.0
    }

    fn test(&self, c: char) -> (r: bool) {
        c == self.0
    }
}

/// One of three given characters.
pub struct OneOf3(pub char, pub char, pub char);

impl CharTest for OneOf3 {
    open spec fn holds(&self, c: char) -> bool {
        c == self.0 || c == self.1 || c == self.2
    }

    fn test(&self, c: char) -> (r: bool) {
        c == self.0 || c == self.1 || c == self.2
    }
}

/// The predicate a test decides.
pub open spec fn passes<T: CharTest>(t: T) -> spec_fn(char) -> bool {
    |c: char| t.holds(c)
}

pub fn trim_start_by<T: CharTest>(s: &str, t: T) -> (r: String)
    ensures
        r@ == drop_leading(s@, passes(t)),
{
    let cs = chars_of(s);
    let n: usize = cs.len();
    let mut i: usize = 0;
    assert(s@.skip(0) =~= s@);
    while i < n && t.test(cs[i])
        invariant
            i <= n,
            n == cs@.len(),
            cs@ == s@,
            drop_leading(s@.skip(i as int), passes(t)) == drop_leading(s@, passes(t)),
        decreases n - i,
    {
        assert(s@.skip(i as int).skip(1) =~= s@.skip(i + 1));
        assert(passes(t)(s@.skip(i as int)[0]));
        i = i + 1;
    }
    assert(s@.subrange(i as int, n as int) =~= s@.skip(i as int));
    assert(i < n ==> !passes(t)(s@.skip(i as int)[0]));
    s.substring_char(i, n).to_owned()
}

pub fn trim_end_by<T: CharTest>(s: &str, t: T) -> (r: String)
    ensures
        r@ == drop_trailing(s@, passes(t)),
{
    let cs = chars_of(s);
    let mut n: usize = cs.len();
    assert(s@.take(n as int) =~= s@);
    while n > 0 && t.test(cs[n - 1])
        invariant
            n <= cs@.len(),
            cs@ == s@,
            drop_trailing(s@.take(n as int), passes(t)) == drop_trailing(s@, passes(t)),
        decreases n,
    {
        assert(s@.take(n as int).drop_last() =~= s@.take(n - 1));
        assert(passes(t)(s@.take(n as int).last()));
        n = n - 1;
    }
    assert(s@.subrange(0, n as int) =~= s@.take(n as int));
    assert(n > 0 ==> !passes(t)(s@.take(n as int).last()));
    s.substring_char(0, n).to_owned()
}

/// `s` without white space at either end.
pub fn trim(s: &str) -> (r: String)
    ensures
        r@ == trimmed(s@),
{
    let a = trim_start_by(s, Space);
    let b = trim_end_by(a.as_str(), Space);
    assert(passes(Space) =~= spaces());
    b
}

/// `s` without leading `d`s.
pub fn trim_start_char(s: &str, d: char) -> (r: String)
    ensures
        r@ == drop_leading(s@, only(d)),
{
    assert(passes(One(d)) =~= only(d));
    trim_start_by(s, One(d))
}

/// `s` without trailing `d`s.
pub fn trim_end_char(s: &str, d: char) -> (r: String)
    ensures
        r@ == drop_trailing(s@, only(d)),
{
    assert(passes(One(d)) =~= only(d));
    trim_end_by(s, One(d))
}

// ---------------------------------------------------------------------------
// Prefixes, suffixes and occurrences
// ---------------------------------------------------------------------------

/// Whether `p` occurs in `s` at index `i`.
pub open spec fn occurs_at(s: Seq<char>, p: Seq<char>, i: int) -> bool {
    0 <= i && i + p.len() <= s.len() && s.subrange(i, i + p.len()) == p
}

/// Whether `p` occurs somewhere in `s`.
pub open spec fn has(s: Seq<char>, p: Seq<char>) -> bool {
    exists|i: int| #[trigger] occurs_at(s, p, i)
}

fn match_at(s: &Vec<char>, p: &Vec<char>, i: usize) -> (r: bool)
    requires
        i <= s@.len(),
    ensures
        r == occurs_at(s@, p@, i as int),
{
    let n: usize = s.len();
    if n - i < p.len() {
        return false;
    }
    for j in 0..p.len()
        invariant
            n == s@.len(),
            i + p@.len() <= n,
            forall|k: int| 0 <= k < j ==> s@[i + k] == p@[k],
    {
        if s[i + j] != p[j] {
            assert(s@.subrange(i as int, i + p@.len())[j as int] != p@[j as int]);
            return false;
        }
    }
    assert(s@.subrange(i as int, i + p@.len()) =~= p@);
    true
}

pub fn starts_with(s: &str, p: &str) -> (r: bool)
    ensures
        r == p@.is_prefix_of(s@),
{
    match_at(&chars_of(s), &chars_of(p), 0)
}

pub fn ends_with(s: &str, p: &str) -> (r: bool)
    ensures
        r == p@.is_suffix_of(s@),
{
    let a = chars_of(s);
    let b = chars_of(p);
    if a.len() < b.len() {
        return false;
    }
    match_at(&a, &b, a.len() - b.len())
}

pub fn contains(s: &str, p: &str) -> (r: bool)
    ensures
        r == has(s@, p@),
{
    let a = chars_of(s);
    let b = chars_of(p);
    for i in 0..a.len()
        invariant
            a@ == s@,
            b@ == p@,
            forall|k: int| 0 <= k < i ==> !occurs_at(s@, p@, k),
    {
        if match_at(&a, &b, i) {
            return true;
        }
    }
    match_at(&a, &b, a.len())
}

/// Whether some character of `s` satisfies `p`.
pub open spec fn some_char(s: Seq<char>, p: spec_fn(char) -> bool) -> bool {
    exists|i: int| 0 <= i < s.len() && p(#[trigger] s[i])
}

pub fn any_char<T: CharTest>(s: &str, t: T) -> (r: bool)
    ensures
        r == some_char(s@, passes(t)),
{
    let a = chars_of(s);
    for i in 0..a.len()
        invariant
            a@ == s@,
            forall|k: int| 0 <= k < i ==> !t.holds(#[trigger] s@[k]),
    {
        if t.test(a[i]) {
            assert(passes(t)(s@[i as int]));
            return true;
        }
    }
    false
}

pub fn contains_char(s: &str, d: char) -> (r: bool)
    ensures
        r == s@.contains(d),
{
    let r = any_char(s, One(d));
    proof {
        if r {
            let i = choose|i: int| 0 <= i < s@.len() && passes(One(d))(#[trigger] s@[i]);
            assert(s@[i] == d);
        } else if s@.contains(d) {
            let i = choose|i: int| 0 <= i < s@.len() && s@[i] == d;
            assert(passes(One(d))(s@[i]));
        }
    }
    r
}

/// What follows the prefix `p` of `s`.
pub open spec fn after_prefix(s: Seq<char>, p: Seq<char>) -> Option<Seq<char>> {
    if p.is_prefix_of(s) {
        Some(s.skip(p.len() as int))
    } else {
        None
    }
}

/// What precedes the suffix `p` of `s`.
pub open spec fn before_suffix(s: Seq<char>, p: Seq<char>) -> Option<Seq<char>> {
    if p.is_suffix_of(s) {
        Some(s.take(s.len() - p.len()))
    } else {
        None
    }
}

pub fn strip_prefix(s: &str, p: &str) -> (r: Option<String>)
    ensures
        r.deep_view() == after_prefix(s@, p@),
{
    if starts_with(s, p) {
        let n = s.unicode_len();
        let k = p.unicode_len();
        assert(s@.subrange(k as int, n as int) =~= s@.skip(k as int));
        Some(s.substring_char(k, n).to_owned())
    } else {
        None
    }
}

pub fn strip_suffix(s: &str, p: &str) -> (r: Option<String>)
    ensures
        r.deep_view() == before_suffix(s@, p@),
{
    if ends_with(s, p) {
        let n = s.unicode_len();
        let k = p.unicode_len();
        assert(s@.subrange(0, n - k) =~= s@.take(n - k));
        Some(s.substring_char(0, n - k).to_owned())
    } else {
        None
    }
}

// ---------------------------------------------------------------------------
// Splitting and joining
// ---------------------------------------------------------------------------

/// The index of the first character of `s` that satisfies `p`, or the length of `s`.
pub open spec fn first_at(s: Seq<char>, p: spec_fn(char) -> bool) -> int
    decreases s.len(),
{
    if s.len() == 0 || p(s[0]) {
        0
    } else {
        1 + first_at(s.skip(1), p)
    }
}

pub proof fn lemma_first_at(s: Seq<char>, p: spec_fn(char) -> bool)
    ensures
        0 <= first_at(s, p) <= s.len(),
        first_at(s, p) < s.len() ==> p(s[first_at(s, p)]),
        forall|i: int| 0 <= i < first_at(s, p) ==> !p(#[trigger] s[i]),
    decreases s.len(),
{
    if s.len() > 0 && !p(s[0]) {
        lemma_first_at(s.skip(1), p);
        assert forall|i: int| 0 <= i < first_at(s, p) implies !p(#[trigger] s[i]) by {
            if i > 0 {
                assert(s[i] == s.skip(1)[i - 1]);
            }
        }
    }
}

fn find_from<T: CharTest>(cs: &Vec<char>, from: usize, t: &T) -> (r: usize)
    requires
        from <= cs@.len(),
    ensures
        from <= r <= cs@.len(),
        r - from == first_at(cs@.skip(from as int), passes(*t)),
{
    let n = cs.len();
    let mut i: usize = from;
    while i < n && !t.test(cs[i])
        invariant
            from <= i <= n,
            n == cs@.len(),
            first_at(cs@.skip(from as int), passes(*t)) == (i - from) + first_at(
                cs@.skip(i as int),
                passes(*t),
            ),
        decreases n - i,
    {
        assert(cs@.skip(i as int).skip(1) =~= cs@.skip(i + 1));
        assert(!passes(*t)(cs@.skip(i as int)[0]));
        i = i + 1;
    }
    proof {
        if i < n {
            assert(passes(*t)(cs@.skip(i as int)[0]));
        }
    }
    i
}

/// The pieces of `s` between the characters that satisfy `p`.
pub open spec fn pieces(s: Seq<char>, p: spec_fn(char) -> bool) -> Seq<Seq<char>>
    decreases s.len(),
{
    let i = first_at(s, p);
    if 0 <= i < s.len() {
        seq![s.take(i)] + pieces(s.skip(i + 1), p)
    } else {
        seq![s]
    }
}

pub fn split_by<T: CharTest>(s: &str, t: T) -> (r: Vec<String>)
    ensures
        r.deep_view() == pieces(s@, passes(t)),
        r@.len() > 0,
{
    let cs = chars_of(s);
    let n = cs.len();
    let mut from: usize = 0;
    let mut r: Vec<String> = Vec::new();
    assert(s@.skip(0) =~= s@);
    assert(r.deep_view() + pieces(s@, passes(t)) =~= pieces(s@, passes(t)));
    loop
        invariant
            from <= n,
            n == cs@.len(),
            cs@ == s@,
            r.deep_view() + pieces(s@.skip(from as int), passes(t)) == pieces(s@, passes(t)),
        decreases n - from,
    {
        let i = find_from(&cs, from, &t);
        let piece = s.substring_char(from, i).to_owned();
        let ghost before = r.deep_view();
        r.push(piece);
        assert(r.deep_view() =~= before.push(piece@));
        if i >= n {
            assert(s@.subrange(from as int, n as int) =~= s@.skip(from as int));
            assert(r.deep_view() =~= before + seq![piece@]);
            return r;
        }
        assert(s@.skip(from as int).take(i - from) =~= s@.subrange(from as int, i as int));
        assert(s@.skip(from as int).skip(i - from + 1) =~= s@.skip(i + 1));
        assert(before + (seq![piece@] + pieces(s@.skip(i + 1), passes(t))) =~= r.deep_view()
            + pieces(s@.skip(i + 1), passes(t)));
        from = i + 1;
    }
}

/// What stands before and after the first `d` in `s`.
pub open spec fn cut(s: Seq<char>, d: char) -> Option<(Seq<char>, Seq<char>)> {
    let i = first_at(s, only(d));
    if 0 <= i < s.len() {
        Some((s.take(i), s.skip(i + 1)))
    } else {
        None
    }
}

pub fn split_once(s: &str, d: char) -> (r: Option<(String, String)>)
    ensures
        r.deep_view() == cut(s@, d),
{
    let cs = chars_of(s);
    let n = cs.len();
    let i = find_from(&cs, 0, &One(d));
    assert(cs@.skip(0) =~= s@);
    assert(passes(One(d)) =~= only(d));
    if i < n {
        assert(s@.subrange(0, i as int) =~= s@.take(i as int));
        assert(s@.subrange(i + 1, n as int) =~= s@.skip(i + 1));
        Some((s.substring_char(0, i).to_owned(), s.substring_char(i + 1, n).to_owned()))
    } else {
        None
    }
}

/// The maximal runs of non-space characters of `s`, in order.
pub open spec fn words(s: Seq<char>) -> Seq<Seq<char>>
    decreases s.len(),
{
    if s.len() == 0 {
        seq![]
    } else if is_space(s[0]) {
        words(s.skip(1))
    } else {
        let i = first_at(s, spaces());
        if 0 < i <= s.len() {
            seq![s.take(i)] + words(s.skip(i))
        } else {
            seq![]
        }
    }
}

pub fn split_words(s: &str) -> (r: Vec<String>)
    ensures
        r.deep_view() == words(s@),
{
    let cs = chars_of(s);
    let n = cs.len();
    let mut from: usize = 0;
    let mut r: Vec<String> = Vec::new();
    assert(s@.skip(0) =~= s@);
    assert(r.deep_view() + words(s@) =~= words(s@));
    assert(passes(Space) =~= spaces());
    while from < n
        invariant
            from <= n,
            n == cs@.len(),
            cs@ == s@,
            passes(Space) == spaces(),
            r.deep_view() + words(s@.skip(from as int)) == words(s@),
        decreases n - from,
    {
        let ghost rest = s@.skip(from as int);
        if is_white_space(cs[from]) {
            assert(rest.skip(1) =~= s@.skip(from + 1));
            from = from + 1;
        } else {
            let i = find_from(&cs, from, &Space);
            proof {
                lemma_first_at(rest, spaces());
            }
            assert(!spaces()(rest[0]));
            assert(i > from);
            let piece = s.substring_char(from, i).to_owned();
            let ghost before = r.deep_view();
            r.push(piece);
            assert(r.deep_view() =~= before.push(piece@));
            assert(rest.take(i - from) =~= s@.subrange(from as int, i as int));
            assert(rest.skip(i - from) =~= s@.skip(i as int));
            assert(before + (seq![piece@] + words(s@.skip(i as int))) =~= r.deep_view() + words(
                s@.skip(i as int),
            ));
            from = i;
        }
    }
    assert(s@.skip(from as int) =~= seq![]);
    assert(r.deep_view() + seq![] =~= r.deep_view());
    r
}

/// `parts` with `sep` between neighbours.
pub open spec fn joined(parts: Seq<Seq<char>>, sep: Seq<char>) -> Seq<char>
    decreases parts.len(),
{
    if parts.len() == 0 {
        seq![]
    } else if parts.len() == 1 {
        parts[0]
    } else {
        joined(parts.drop_last(), sep) + sep + parts.last()
    }
}

pub fn join(parts: &Vec<String>, sep: &str) -> (r: String)
    ensures
        r@ == joined(parts.deep_view(), sep@),
{
    let mut r = String::new();
    let ghost all = parts.deep_view();
    for i in 0..parts.len()
        invariant
            all == parts.deep_view(),
            r@ == joined(all.take(i as int), sep@),
    {
        if i > 0 {
            r.append(sep);
        }
        r.append(parts[i].as_str());
        assert(all.take(i + 1).drop_last() =~= all.take(i as int));
        assert(r@ =~= joined(all.take(i + 1), sep@));
    }
    assert(all.take(parts@.len() as int) =~= all);
    r
}

/// `s` with every occurrence of `from`, taken left to right without overlap,
/// replaced by `to`.
pub open spec fn replaced(s: Seq<char>, from: Seq<char>, to: Seq<char>) -> Seq<char>
    decreases s.len(),
{
    if s.len() == 0 || from.len() == 0 {
        s
    } else if from.is_prefix_of(s) {
        to + replaced(s.skip(from.len() as int), from, to)
    } else {
        seq![s[0]] + replaced(s.skip(1), from, to)
    }
}

pub fn replace(s: &str, from: &str, to: &str) -> (r: String)
    requires
        from@.len() > 0,
    ensures
        r@ == replaced(s@, from@, to@),
{
    let cs = chars_of(s);
    let pat = chars_of(from);
    let n = cs.len();
    let mut i: usize = 0;
    let mut r = String::new();
    assert(s@.skip(0) =~= s@);
    assert(r@ + replaced(s@, from@, to@) =~= replaced(s@, from@, to@));
    while i < n
        invariant
            i <= n,
            n == cs@.len(),
            cs@ == s@,
            pat@ == from@,
            pat@.len() > 0,
            r@ + replaced(s@.skip(i as int), from@, to@) == replaced(s@, from@, to@),
        decreases n - i,
    {
        let ghost rest = s@.skip(i as int);
        let ghost before = r@;
        if match_at(&cs, &pat, i) {
            assert(rest.subrange(0, pat@.len() as int) =~= s@.subrange(i as int, i + pat@.len()));
            assert(rest.skip(pat@.len() as int) =~= s@.skip(i + pat@.len()));
            r.append(to);
            assert(before + (to@ + replaced(s@.skip(i + pat@.len()), from@, to@)) =~= r@
                + replaced(s@.skip(i + pat@.len()), from@, to@));
            i = i + pat.len();
        } else {
            assert(!pat@.is_prefix_of(rest)) by {
                if pat@.is_prefix_of(rest) {
                    assert(rest.subrange(0, pat@.len() as int) =~= s@.subrange(
                        i as int,
                        i + pat@.len(),
                    ));
                }
            }
            assert(rest.skip(1) =~= s@.skip(i + 1));
            r.push(cs[i]);
            assert(before + (seq![rest[0]] + replaced(s@.skip(i + 1), from@, to@)) =~= r@
                + replaced(s@.skip(i + 1), from@, to@));
            i = i + 1;
        }
    }
    assert(s@.skip(i as int) =~= seq![]);
    assert(r@ + seq![] =~= r@);
    r
}

/// The string `a` followed by `b`.
pub fn cat(a: &str, b: &str) -> (r: String)
    ensures
        r@ == a@ + b@,
{
    let mut r = a.to_owned();
    r.append(b);
    r
}

pub fn cat3(a: &str, b: &str, c: &str) -> (r: String)
    ensures
        r@ == a@ + b@ + c@,
{
    let mut r = a.to_owned();
    r.append(b);
    r.append(c);
    r
}

// ---------------------------------------------------------------------------
// Numbers
// ---------------------------------------------------------------------------

pub open spec fn digit_char(d: int) -> char {
    (('0' as int) + d) as char
}

/// The decimal digits of `n`.
pub open spec fn dec(n: nat) -> Seq<char>
    decreases n,
{
    if n < 10 {
        seq![digit_char(n as int)]
    } else {
        dec(n / 10).push(digit_char((n % 10) as int))
    }
}

/// The decimal digits of `n`, behind a minus sign where it is negative.
pub open spec fn signed_dec(n: int) -> Seq<char> {
    if n < 0 {
        seq!['-'] + dec((-n) as nat)
    } else {
        dec(n as nat)
    }
}

fn to_digit(d: u8) -> (r: char)
    requires
        d < 10,
    ensures
        r == digit_char(d as int),
{
    (48u8 + d) as char
}

fn push_dec(r: &mut String, n: u128)
    ensures
        final(r)@ == old(r)@ + dec(n as nat),
    decreases n,
{
    if n >= 10 {
        push_dec(r, n / 10);
    }
    let ghost before = r@;
    r.push(to_digit((n % 10) as u8));
    assert(r@ =~= before.push(digit_char((n % 10) as int)));
    assert(n < 10 ==> n % 10 == n);
    assert(r@ =~= old(r)@ + dec(n as nat));
}

/// `n` in decimal.
pub fn dec_u64(n: u64) -> (r: String)
    ensures
        r@ == dec(n as nat),
{
    dec_u128(n as u128)
}

/// `n` in decimal.
pub fn dec_u128(n: u128) -> (r: String)
    ensures
        r@ == dec(n as nat),
{
    let mut r = String::new();
    push_dec(&mut r, n);
    assert(r@ =~= dec(n as nat));
    r
}

pub fn dec_usize(n: usize) -> (r: String)
    ensures
        r@ == dec(n as nat),
{
    dec_u64(n as u64)
}

pub fn dec_i64(n: i64) -> (r: String)
    ensures
        r@ == signed_dec(n as int),
{
    if n >= 0 {
        return dec_u64(n as u64);
    }
    let mut r = String::new();
    r.push('-');
    let m: u64 = (-(n as i128)) as u64;
    push_dec(&mut r, m as u128);
    assert(r@ =~= seq!['-'] + dec(m as nat));
    r
}

pub open spec fn is_digit(c: char) -> bool {
    '0' <= c && c <= '9'
}

pub open spec fn all_digits(s: Seq<char>) -> bool {
    s.len() > 0 && forall|i: int| 0 <= i < s.len() ==> is_digit(#[trigger] s[i])
}

/// The value of a sequence of decimal digits.
pub open spec fn digits_value(s: Seq<char>) -> nat
    decreases s.len(),
{
    if s.len() == 0 {
        0
    } else {
        10 * digits_value(s.drop_last()) + ((s.last() as int) - ('0' as int)) as nat
    }
}

proof fn lemma_digits_grow(s: Seq<char>, k: int)
    requires
        0 <= k <= s.len(),
        forall|i: int| 0 <= i < s.len() ==> is_digit(#[trigger] s[i]),
    ensures
        digits_value(s.take(k)) <= digits_value(s),
    decreases s.len(),
{
    if k < s.len() {
        assert(s.drop_last().take(k) =~= s.take(k));
        assert forall|i: int| 0 <= i < s.drop_last().len() implies is_digit(
            #[trigger] s.drop_last()[i],
        ) by {
            assert(s.drop_last()[i] == s[i]);
        }
        lemma_digits_grow(s.drop_last(), k);
        assert(is_digit(s[s.len() - 1]));
    } else {
        assert(s.take(k) =~= s);
    }
}

/// The value of `cs[from..]`, if all of it is digits and the value is at most `max`.
fn read_digits(cs: &Vec<char>, from: usize, max: u64) -> (r: Option<u64>)
    requires
        from <= cs@.len(),
    ensures
        match r {
            Some(v) => all_digits(cs@.skip(from as int)) && v == digits_value(
                cs@.skip(from as int),
            ) && v <= max,
            None => !all_digits(cs@.skip(from as int)) || digits_value(cs@.skip(from as int)) > max,
        },
{
    let ghost t = cs@.skip(from as int);
    if from == cs.len() {
        return None;
    }
    let mut v: u64 = 0;
    let n: usize = cs.len();
    let mut i: usize = from;
    assert(t.take(0) =~= seq![]);
    while i < n
        invariant
            from <= i <= n,
            n == cs@.len(),
            t == cs@.skip(from as int),
            t.len() == n - from,
            v == digits_value(t.take(i - from)),
            v <= max,
            forall|k: int| 0 <= k < i - from ==> is_digit(#[trigger] t[k]),
        decreases n - i,
    {
        let c = cs[i];
        assert(t[i - from] == c);
        if !('0' <= c && c <= '9') {
            return None;
        }
        let d: u64 = (c as u32 - '0' as u32) as u64;
        let w: u128 = (v as u128) * 10 + (d as u128);
        assert(t.take(i - from + 1).drop_last() =~= t.take(i - from));
        assert(w == digits_value(t.take(i - from + 1)));
        if w > max as u128 {
            proof {
                if all_digits(t) {
                    lemma_digits_grow(t, i - from + 1);
                }
            }
            return None;
        }
        v = w as u64;
        i = i + 1;
    }
    assert(t.take(n - from) =~= t);
    Some(v)
}

/// The number a string of digits, with an optional plus sign, stands for if it
/// is at most `max`.
pub open spec fn parsed_nat(s: Seq<char>, max: nat) -> Option<nat> {
    let t = if s.len() > 0 && s[0] == '+' {
        s.skip(1)
    } else {
        s
    };
    if all_digits(t) && digits_value(t) <= max {
        Some(digits_value(t))
    } else {
        None
    }
}

pub fn parse_u64(s: &str) -> (r: Option<u64>)
    ensures
        r is Some == (parsed_nat(s@, u64::MAX as nat) is Some),
        r matches Some(v) ==> parsed_nat(s@, u64::MAX as nat) == Some(v as nat),
{
    let cs = chars_of(s);
    let from: usize = if cs.len() > 0 && cs[0] == '+' {
        1
    } else {
        0
    };
    assert(cs@.skip(0) =~= cs@);
    read_digits(&cs, from, u64::MAX)
}

/// The number a string of digits, with an optional sign, stands for if it fits
/// a signed 64-bit integer.
pub open spec fn parsed_i64(s: Seq<char>) -> Option<int> {
    if s.len() > 0 && s[0] == '-' {
        let t = s.skip(1);
        if all_digits(t) && digits_value(t) <= 0x8000_0000_0000_0000 {
            Some(-(digits_value(t) as int))
        } else {
            None
        }
    } else {
        match parsed_nat(s, 0x7fff_ffff_ffff_ffff) {
            Some(n) => Some(n as int),
            None => None,
        }
    }
}

pub fn parse_i64(s: &str) -> (r: Option<i64>)
    ensures
        r is Some == (parsed_i64(s@) is Some),
        r matches Some(v) ==> parsed_i64(s@) == Some(v as int),
{
    let cs = chars_of(s);
    assert(cs@.skip(0) =~= cs@);
    if cs.len() > 0 && cs[0] == '-' {
        return match read_digits(&cs, 1, 0x8000_0000_0000_0000) {
            Some(v) => Some((-(v as i128)) as i64),
            None => None,
        };
    }
    let from: usize = if cs.len() > 0 && cs[0] == '+' {
        1
    } else {
        0
    };
    match read_digits(&cs, from, 0x7fff_ffff_ffff_ffff) {
        Some(v) => Some(v as i64),
        None => None,
    }
}

pub open spec fn hex_digit(d: int) -> char {
    if d < 10 {
        digit_char(d)
    } else {
        (('a' as int) + d - 10) as char
    }
}

/// The bytes as lower-case hexadecimal, two characters each.
pub open spec fn hex(bytes: Seq<u8>) -> Seq<char>
    decreases bytes.len(),
{
    if bytes.len() == 0 {
        seq![]
    } else {
        let b = bytes.last() as int;
        hex(bytes.drop_last()) + seq![hex_digit(b / 16), hex_digit(b % 16)]
    }
}

fn to_hex_digit(d: u8) -> (r: char)
    requires
        d < 16,
    ensures
        r == hex_digit(d as int),
{
    if d < 10 {
        to_digit(d)
    } else {
        (87u8 + d) as char
    }
}

pub fn hex_of(bytes: &Vec<u8>) -> (r: String)
    ensures
        r@ == hex(bytes@),
        r@.len() == 2 * bytes@.len(),
{
    let mut r = String::new();
    for i in 0..bytes.len()
        invariant
            r@ == hex(bytes@.take(i as int)),
            r@.len() == 2 * i,
    {
        let ghost before = r@;
        r.push(to_hex_digit(bytes[i] / 16));
        r.push(to_hex_digit(bytes[i] % 16));
        assert(bytes@.take(i + 1).drop_last() =~= bytes@.take(i as int));
        assert(r@ =~= before + seq![
            hex_digit(bytes@[i as int] as int / 16),
            hex_digit(bytes@[i as int] as int % 16),
        ]);
    }
    assert(bytes@.take(bytes@.len() as int) =~= bytes@);
    r
}

// ---------------------------------------------------------------------------
// Order
// ---------------------------------------------------------------------------

/// Whether `a` comes strictly before `b` in the order of their characters.
pub open spec fn precedes(a: Seq<char>, b: Seq<char>) -> bool
    decreases a.len(),
{
    if b.len() == 0 {
        false
    } else if a.len() == 0 {
        true
    } else if a[0] == b[0] {
        precedes(a.skip(1), b.skip(1))
    } else {
        a[0] < b[0]
    }
}

pub proof fn lemma_precedes_irreflexive(a: Seq<char>)
    ensures
        !precedes(a, a),
    decreases a.len(),
{
    if a.len() > 0 {
        lemma_precedes_irreflexive(a.skip(1));
    }
}

pub proof fn lemma_precedes_transitive(a: Seq<char>, b: Seq<char>, c: Seq<char>)
    requires
        precedes(a, b),
        precedes(b, c),
    ensures
        precedes(a, c),
    decreases a.len(),
{
    if a.len() > 0 && b.len() > 0 && c.len() > 0 && a[0] == b[0] && b[0] == c[0] {
        lemma_precedes_transitive(a.skip(1), b.skip(1), c.skip(1));
    }
}

pub proof fn lemma_precedes_total(a: Seq<char>, b: Seq<char>)
    ensures
        precedes(a, b) || a == b || precedes(b, a),
    decreases a.len(),
{
    if a.len() > 0 && b.len() > 0 && a[0] == b[0] {
        lemma_precedes_total(a.skip(1), b.skip(1));
        if a.skip(1) == b.skip(1) {
            assert(a =~= seq![a[0]] + a.skip(1));
            assert(b =~= seq![b[0]] + b.skip(1));
        }
    } else if a.len() == 0 && b.len() == 0 {
        assert(a =~= b);
    }
}

/// Whether `a` comes strictly before `b`.
pub fn is_before(a: &str, b: &str) -> (r: bool)
    ensures
        r == precedes(a@, b@),
{
    let x = chars_of(a);
    let y = chars_of(b);
    let mut i: usize = 0;
    assert(x@.skip(0) =~= x@);
    assert(y@.skip(0) =~= y@);
    while i < x.len() && i < y.len()
        invariant
            x@ == a@,
            y@ == b@,
            i <= x@.len(),
            i <= y@.len(),
            precedes(x@, y@) == precedes(x@.skip(i as int), y@.skip(i as int)),
        decreases x@.len() - i,
    {
        if x[i] != y[i] {
            return x[i] < y[i];
        }
        assert(x@.skip(i as int).skip(1) =~= x@.skip(i + 1));
        assert(y@.skip(i as int).skip(1) =~= y@.skip(i + 1));
        i = i + 1;
    }
    i < y.len()
}

/// Strictly increasing, so that nothing occurs twice.
pub open spec fn ascending(s: Seq<Seq<char>>) -> bool {
    forall|i: int, j: int| 0 <= i < j < s.len() ==> precedes(#[trigger] s[i], #[trigger] s[j])
}

proof fn lemma_push_ascending(s: Seq<Seq<char>>, x: Seq<char>)
    requires
        ascending(s),
        s.len() > 0 ==> precedes(s.last(), x),
    ensures
        ascending(s.push(x)),
{
    assert forall|i: int, j: int| 0 <= i < j < s.push(x).len() implies precedes(
        #[trigger] s.push(x)[i],
        #[trigger] s.push(x)[j],
    ) by {
        if j == s.len() && i < s.len() - 1 {
            lemma_precedes_transitive(s[i], s.last(), x);
        }
    }
}

/// The elements of two ascending lists, each once, in ascending order.
fn merge_ascending(a: &Vec<String>, b: &Vec<String>) -> (r: Vec<String>)
    requires
        ascending(a.deep_view()),
        ascending(b.deep_view()),
    ensures
        ascending(r.deep_view()),
        forall|x: Seq<char>|
            #![auto]
            r.deep_view().contains(x) <==> a.deep_view().contains(x) || b.deep_view().contains(x),
{
    let ghost s = a.deep_view();
    let ghost t = b.deep_view();
    let mut r: Vec<String> = Vec::new();
    let mut i: usize = 0;
    let mut j: usize = 0;
    while i < a.len() || j < b.len()
        invariant
            s == a.deep_view(),
            t == b.deep_view(),
            ascending(s),
            ascending(t),
            i <= a@.len(),
            j <= b@.len(),
            ascending(r.deep_view()),
            forall|k: int| 0 <= k < r@.len() && i < s.len() ==> precedes(#[trigger] r.deep_view()[k], s[i as int]),
            forall|k: int| 0 <= k < r@.len() && j < t.len() ==> precedes(#[trigger] r.deep_view()[k], t[j as int]),
            forall|k: int| 0 <= k < i ==> r.deep_view().contains(#[trigger] s[k]),
            forall|k: int| 0 <= k < j ==> r.deep_view().contains(#[trigger] t[k]),
            forall|k: int| 0 <= k < r@.len() ==> s.contains(#[trigger] r.deep_view()[k]) || t.contains(r.deep_view()[k]),
        decreases (a@.len() - i) + (b@.len() - j),
    {
        let ghost before = r.deep_view();
        let ghost i0 = i as int;
        let ghost j0 = j as int;
        let take_a = i < a.len() && (j >= b.len() || !is_before(b[j].as_str(), a[i].as_str()));
        let take_b = j < b.len() && (i >= a.len() || !is_before(a[i].as_str(), b[j].as_str()));
        proof {
            if i < s.len() && j < t.len() {
                lemma_precedes_total(s[i0], t[j0]);
                if precedes(s[i0], t[j0]) && precedes(t[j0], s[i0]) {
                    lemma_precedes_transitive(s[i0], t[j0], s[i0]);
                    lemma_precedes_irreflexive(s[i0]);
                }
                lemma_precedes_irreflexive(s[i0]);
            }
        }
        let next: String = if take_a {
            a[i].clone()
        } else {
            b[j].clone()
        };
        let ghost x = next@;
        r.push(next);
        assert(r.deep_view() =~= before.push(x));
        if take_a {
            i = i + 1;
        }
        if take_b {
            j = j + 1;
        }
        proof {
            lemma_push_ascending(before, x);
            assert(r.deep_view()[before.len() as int] == x);
            assert forall|k: int| 0 <= k < r@.len() && i < s.len() implies precedes(
                #[trigger] r.deep_view()[k],
                s[i as int],
            ) by {
                if k < before.len() {
                    assert(r.deep_view()[k] == before[k]);
                    if i > i0 {
                        lemma_precedes_transitive(before[k], s[i0], s[i as int]);
                    }
                } else if i > i0 {
                    assert(precedes(s[i0], s[i as int]));
                }
            }
            assert forall|k: int| 0 <= k < r@.len() && j < t.len() implies precedes(
                #[trigger] r.deep_view()[k],
                t[j as int],
            ) by {
                if k < before.len() {
                    assert(r.deep_view()[k] == before[k]);
                    if j > j0 {
                        lemma_precedes_transitive(before[k], t[j0], t[j as int]);
                    }
                } else if j > j0 {
                    assert(precedes(t[j0], t[j as int]));
                }
            }
            assert forall|k: int| 0 <= k < i implies r.deep_view().contains(#[trigger] s[k]) by {
                if k < i0 {
                    let w = choose|w: int| 0 <= w < before.len() && before[w] == s[k];
                    assert(r.deep_view()[w] == s[k]);
                }
            }
            assert forall|k: int| 0 <= k < j implies r.deep_view().contains(#[trigger] t[k]) by {
                if k < j0 {
                    let w = choose|w: int| 0 <= w < before.len() && before[w] == t[k];
                    assert(r.deep_view()[w] == t[k]);
                }
            }
            assert forall|k: int| 0 <= k < r@.len() implies s.contains(
                #[trigger] r.deep_view()[k],
            ) || t.contains(r.deep_view()[k]) by {
                if k < before.len() {
                    assert(r.deep_view()[k] == before[k]);
                } else if take_a {
                    assert(s[i0] == x);
                } else {
                    assert(t[j0] == x);
                }
            }
        }
    }
    r
}

/// `v[from..to]` in ascending order, without repeats.
fn sort_range(v: &Vec<String>, from: usize, to: usize) -> (r: Vec<String>)
    requires
        from <= to <= v@.len(),
    ensures
        ascending(r.deep_view()),
        forall|x: Seq<char>|
            #![auto]
            r.deep_view().contains(x) <==> v.deep_view().subrange(from as int, to as int).contains(
                x,
            ),
    decreases to - from,
{
    let ghost all = v.deep_view();
    if to - from == 0 {
        let r: Vec<String> = Vec::new();
        assert(all.subrange(from as int, to as int) =~= seq![]);
        assert(r.deep_view() =~= seq![]);
        return r;
    }
    if to - from == 1 {
        let mut r: Vec<String> = Vec::new();
        r.push(v[from].clone());
        assert(r.deep_view() =~= all.subrange(from as int, to as int));
        return r;
    }
    let mid: usize = from + (to - from) / 2;
    let a = sort_range(v, from, mid);
    let b = sort_range(v, mid, to);
    proof {
        let l = all.subrange(from as int, mid as int);
        let h = all.subrange(mid as int, to as int);
        let w = all.subrange(from as int, to as int);
        assert(w =~= l + h);
        assert forall|x: Seq<char>| w.contains(x) <==> l.contains(x) || h.contains(x) by {
            if w.contains(x) {
                let k = choose|k: int| 0 <= k < w.len() && w[k] == x;
                if k < l.len() {
                    assert(l[k] == x);
                } else {
                    assert(h[k - l.len()] == x);
                }
            }
            if l.contains(x) {
                let k = choose|k: int| 0 <= k < l.len() && l[k] == x;
                assert(w[k] == x);
            }
            if h.contains(x) {
                let k = choose|k: int| 0 <= k < h.len() && h[k] == x;
                assert(w[k + l.len()] == x);
            }
        }
    }
    merge_ascending(&a, &b)
}

/// An ascending list with one more element in its place.
pub open spec fn inserted(s: Seq<Seq<char>>, x: Seq<char>) -> Seq<Seq<char>>
    decreases s.len(),
{
    if s.len() == 0 {
        seq![x]
    } else if s.last() == x {
        s
    } else if precedes(s.last(), x) {
        s.push(x)
    } else {
        inserted(s.drop_last(), x).push(s.last())
    }
}

/// The elements of a list in ascending order, without repeats.
pub open spec fn sorted(s: Seq<Seq<char>>) -> Seq<Seq<char>>
    decreases s.len(),
{
    if s.len() == 0 {
        seq![]
    } else {
        inserted(sorted(s.drop_last()), s.last())
    }
}

proof fn lemma_inserted(s: Seq<Seq<char>>, x: Seq<char>)
    requires
        ascending(s),
    ensures
        ascending(inserted(s, x)),
        forall|y: Seq<char>| #[trigger] inserted(s, x).contains(y) <==> s.contains(y) || y == x,
    decreases s.len(),
{
    if s.len() == 0 {
        assert(seq![x][0] == x);
    } else if s.last() == x {
    } else if precedes(s.last(), x) {
        lemma_push_ascending(s, x);
        let t = s.push(x);
        assert forall|y: Seq<char>| #[trigger] t.contains(y) <==> s.contains(y) || y == x by {
            if s.contains(y) {
                let k = choose|k: int| 0 <= k < s.len() && s[k] == y;
                assert(t[k] == y);
            }
            assert(t[s.len() as int] == x);
        }
    } else {
        let front = s.drop_last();
        lemma_inserted(front, x);
        let mid = inserted(front, x);
        let t = mid.push(s.last());
        if mid.len() > 0 {
            assert(mid.contains(mid.last()));
            lemma_precedes_total(s.last(), x);
            if front.contains(mid.last()) {
                let k = choose|k: int| 0 <= k < front.len() && front[k] == mid.last();
                assert(precedes(s[k], s[s.len() - 1]));
            }
        }
        lemma_push_ascending(mid, s.last());
        assert forall|y: Seq<char>| #[trigger] t.contains(y) <==> s.contains(y) || y == x by {
            if t.contains(y) {
                let k = choose|k: int| 0 <= k < t.len() && t[k] == y;
                if k < mid.len() {
                    assert(mid.contains(mid[k]));
                    if front.contains(y) {
                        let w = choose|w: int| 0 <= w < front.len() && front[w] == y;
                        assert(s[w] == y);
                    }
                } else {
                    assert(s[s.len() - 1] == y);
                }
            }
            if s.contains(y) {
                let k = choose|k: int| 0 <= k < s.len() && s[k] == y;
                if k < front.len() {
                    assert(front[k] == y);
                    assert(mid.contains(y));
                    let w = choose|w: int| 0 <= w < mid.len() && mid[w] == y;
                    assert(t[w] == y);
                } else {
                    assert(t[mid.len() as int] == y);
                }
            }
            if y == x {
                assert(mid.contains(x));
                let w = choose|w: int| 0 <= w < mid.len() && mid[w] == x;
                assert(t[w] == x);
            }
        }
    }
}

/// Sorting gives an ascending list of the same elements.
pub proof fn lemma_sorted(s: Seq<Seq<char>>)
    ensures
        ascending(sorted(s)),
        forall|y: Seq<char>| #[trigger] sorted(s).contains(y) <==> s.contains(y),
    decreases s.len(),
{
    if s.len() > 0 {
        let front = s.drop_last();
        lemma_sorted(front);
        lemma_inserted(sorted(front), s.last());
        assert forall|y: Seq<char>| #[trigger] sorted(s).contains(y) <==> s.contains(y) by {
            if s.contains(y) {
                let k = choose|k: int| 0 <= k < s.len() && s[k] == y;
                if k < front.len() {
                    assert(front[k] == y);
                }
            }
            if front.contains(y) {
                let k = choose|k: int| 0 <= k < front.len() && front[k] == y;
                assert(s[k] == y);
            }
            assert(s[s.len() - 1] == s.last());
        }
    }
}

/// An ascending list is fixed by its elements.
proof fn lemma_ascending_unique(a: Seq<Seq<char>>, b: Seq<Seq<char>>)
    requires
        ascending(a),
        ascending(b),
        forall|y: Seq<char>| #[trigger] a.contains(y) <==> b.contains(y),
    ensures
        a == b,
    decreases a.len(),
{
    if a.len() == 0 {
        if b.len() > 0 {
            assert(b.contains(b[0]));
            assert(a.contains(b[0]));
        }
        assert(a =~= b);
    } else {
        let x = a.last();
        assert(a.contains(x));
        let k = choose|k: int| 0 <= k < b.len() && b[k] == x;
        let y = b.last();
        assert(b.contains(y));
        assert(a.contains(y));
        let m = choose|m: int| 0 <= m < a.len() && a[m] == y;
        lemma_precedes_irreflexive(x);
        if k < b.len() - 1 {
            assert(precedes(b[k], b[b.len() - 1]));
            if m < a.len() - 1 {
                assert(precedes(a[m], a[a.len() - 1]));
                lemma_precedes_transitive(x, y, x);
            }
        }
        assert(x == y);
        let fa = a.drop_last();
        let fb = b.drop_last();
        assert forall|z: Seq<char>| #[trigger] fa.contains(z) <==> fb.contains(z) by {
            if fa.contains(z) {
                let i = choose|i: int| 0 <= i < fa.len() && fa[i] == z;
                assert(precedes(a[i], a[a.len() - 1]));
                assert(a.contains(z));
                let j = choose|j: int| 0 <= j < b.len() && b[j] == z;
                assert(fb[j] == z);
            }
            if fb.contains(z) {
                let i = choose|i: int| 0 <= i < fb.len() && fb[i] == z;
                assert(precedes(b[i], b[b.len() - 1]));
                assert(b.contains(z));
                assert(a.contains(z));
                let j = choose|j: int| 0 <= j < a.len() && a[j] == z;
                assert(fa[j] == z);
            }
        }
        lemma_ascending_unique(fa, fb);
        assert(a =~= fa.push(x));
        assert(b =~= fb.push(y));
    }
}

/// The elements of `v` in ascending order, without repeats.
pub fn sort_unique(v: &Vec<String>) -> (r: Vec<String>)
    ensures
        r.deep_view() == sorted(v.deep_view()),
        ascending(r.deep_view()),
        forall|x: Seq<char>|
            #![auto]
            r.deep_view().contains(x) <==> v.deep_view().contains(x),
{
    assert(v.deep_view().subrange(0, v@.len() as int) =~= v.deep_view());
    let r = sort_range(v, 0, v.len());
    proof {
        lemma_sorted(v.deep_view());
        lemma_ascending_unique(r.deep_view(), sorted(v.deep_view()));
    }
    r
}

// ---------------------------------------------------------------------------
// Laws
// ---------------------------------------------------------------------------

/// Lower case moves the twenty-six ASCII capitals by thirty-two and leaves every
/// other character alone.
pub proof fn lower_changes_capitals_alone(s: Seq<char>, i: int)
    requires
        0 <= i < s.len(),
    ensures
        lower(s).len() == s.len(),
        65 <= s[i] as int <= 90 ==> lower(s)[i] as int == s[i] as int + 32,
        !(65 <= s[i] as int <= 90) ==> lower(s)[i] == s[i],
        lower(lower(s)) == lower(s),
{
    assert(lower(lower(s)) =~= lower(s));
}

/// Blanks, tabs and line ends are white space; visible ASCII is not.
pub proof fn visible_characters_are_no_space(c: char)
    ensures
        c == ' ' || c == '\t' || c == '\n' || c == '\r' ==> is_space(c),
        33 <= c as int <= 126 ==> !is_space(c),
{
}

/// A prefix or suffix that was put there comes off again, and leaves the rest.
pub proof fn affixes_come_off(p: Seq<char>, r: Seq<char>)
    ensures
        after_prefix(p + r, p) == Some(r),
        before_suffix(r + p, p) == Some(r),
{
    assert((p + r).skip(p.len() as int) =~= r);
    assert((r + p).take(r.len() as int) =~= r);
    assert(p.is_prefix_of(p + r));
    assert(p.is_suffix_of(r + p));
}

/// A text occurs in every text around it.
pub proof fn a_part_occurs_in_the_whole(a: Seq<char>, p: Seq<char>, b: Seq<char>)
    ensures
        has(a + p + b, p),
{
    assert((a + p + b).subrange(a.len() as int, (a.len() + p.len()) as int) =~= p);
    assert(occurs_at(a + p + b, p, a.len() as int));
}

/// What occurs in a text occurs in every text around it.
pub proof fn occurrences_survive_context(a: Seq<char>, m: Seq<char>, b: Seq<char>, p: Seq<char>)
    requires
        has(m, p),
    ensures
        has(a + m + b, p),
{
    let i = choose|i: int| #[trigger] occurs_at(m, p, i);
    assert((a + m + b).subrange(a.len() + i, a.len() + i + p.len()) =~= m.subrange(
        i,
        i + p.len(),
    ));
    assert(occurs_at(a + m + b, p, a.len() + i));
}

/// Joining one more part adds the separator and the part; the first part stands
/// alone.
pub proof fn joining_adds_a_part(parts: Seq<Seq<char>>, part: Seq<char>, sep: Seq<char>)
    ensures
        joined(seq![], sep) == Seq::<char>::empty(),
        parts.len() == 0 ==> joined(parts.push(part), sep) == part,
        parts.len() > 0 ==> joined(parts.push(part), sep) == joined(parts, sep) + sep + part,
{
    assert(parts.push(part).drop_last() =~= parts);
}

/// Every part of a joined text occurs in it.
pub proof fn joining_keeps_every_part(parts: Seq<Seq<char>>, sep: Seq<char>, i: int)
    requires
        0 <= i < parts.len(),
    ensures
        has(joined(parts, sep), parts[i]),
    decreases parts.len(),
{
    let last = parts.last();
    let e = Seq::<char>::empty();
    if parts.len() == 1 {
        a_part_occurs_in_the_whole(e, last, e);
        assert(e + last + e =~= joined(parts, sep));
    } else {
        let front = joined(parts.drop_last(), sep);
        if i < parts.len() - 1 {
            joining_keeps_every_part(parts.drop_last(), sep, i);
            occurrences_survive_context(e, front, sep + last, parts[i]);
            assert(e + front + (sep + last) =~= joined(parts, sep));
        } else {
            a_part_occurs_in_the_whole(front + sep, last, e);
            assert(front + sep + last + e =~= joined(parts, sep));
        }
    }
}

/// The first of the characters looked for is found behind text without any.
pub proof fn the_first_match_ends_the_rest(
    a: Seq<char>,
    d: char,
    b: Seq<char>,
    p: spec_fn(char) -> bool,
)
    requires
        forall|i: int| 0 <= i < a.len() ==> !p(#[trigger] a[i]),
        p(d),
    ensures
        first_at(a.push(d) + b, p) == a.len(),
        first_at(a, p) == a.len(),
{
    let s = a.push(d) + b;
    lemma_first_at(s, p);
    lemma_first_at(a, p);
    assert(s[a.len() as int] == d);
    let i = first_at(s, p);
    if i < a.len() {
        assert(s[i] == a[i]);
    }
}

/// A text falls into pieces at its separators: what stands before the first one,
/// and the pieces of what follows. A text without one is a piece.
pub proof fn pieces_end_at_separators(
    a: Seq<char>,
    d: char,
    b: Seq<char>,
    p: spec_fn(char) -> bool,
)
    requires
        forall|i: int| 0 <= i < a.len() ==> !p(#[trigger] a[i]),
        p(d),
    ensures
        pieces(a, p) == seq![a],
        pieces(a.push(d) + b, p) == seq![a] + pieces(b, p),
{
    the_first_match_ends_the_rest(a, d, b, p);
    assert((a.push(d) + b).take(a.len() as int) =~= a);
    assert((a.push(d) + b).skip((a.len() + 1) as int) =~= b);
}

/// The pieces of a text, joined by the separator, are the text, and no piece
/// holds the separator.
pub proof fn pieces_make_the_text(s: Seq<char>, d: char)
    ensures
        pieces(s, only(d)).len() > 0,
        joined(pieces(s, only(d)), seq![d]) == s,
        forall|i: int|
            0 <= i < pieces(s, only(d)).len() ==> !(#[trigger] pieces(s, only(d))[i]).contains(d),
    decreases s.len(),
{
    let p = only(d);
    let i = first_at(s, p);
    lemma_first_at(s, p);
    let all = pieces(s, p);
    if i < s.len() {
        let rest = s.skip(i + 1);
        pieces_make_the_text(rest, d);
        lemma_joined_front(s.take(i), pieces(rest, p), seq![d]);
        assert(s =~= s.take(i) + seq![d] + rest);
        assert forall|k: int| 0 <= k < all.len() implies !(#[trigger] all[k]).contains(d) by {
            if k > 0 {
                assert(all[k] == pieces(rest, p)[k - 1]);
            } else if s.take(i).contains(d) {
                let w = choose|w: int| 0 <= w < i && s.take(i)[w] == d;
                assert(!p(s[w]));
            }
        }
    } else {
        assert(all[0] == s);
        if s.contains(d) {
            let w = choose|w: int| 0 <= w < s.len() && s[w] == d;
            assert(!p(s[w]));
        }
    }
}

proof fn lemma_joined_front(a: Seq<char>, parts: Seq<Seq<char>>, sep: Seq<char>)
    requires
        parts.len() > 0,
    ensures
        joined(seq![a] + parts, sep) == a + sep + joined(parts, sep),
    decreases parts.len(),
{
    let all = seq![a] + parts;
    if parts.len() == 1 {
        assert(all.drop_last() =~= seq![a]);
        assert(joined(seq![a], sep) == a);
        assert(joined(all, sep) =~= a + sep + parts[0]);
    } else {
        assert(all.drop_last() =~= seq![a] + parts.drop_last());
        lemma_joined_front(a, parts.drop_last(), sep);
        assert(joined(all, sep) =~= a + sep + joined(parts, sep));
    }
}

/// The last piece of a text is what follows its last separator.
pub proof fn the_last_piece_follows_the_last_separator(
    s: Seq<char>,
    p: spec_fn(char) -> bool,
    i: int,
)
    requires
        0 <= i < s.len(),
        p(s[i]),
        forall|k: int| i < k < s.len() ==> !p(#[trigger] s[k]),
    ensures
        pieces(s, p).len() > 0,
        pieces(s, p).last() == s.skip(i + 1),
    decreases s.len(),
{
    let f = first_at(s, p);
    lemma_first_at(s, p);
    let rest = s.skip(f + 1);
    if f < i {
        assert(rest[i - f - 1] == s[i]);
        assert forall|k: int| i - f - 1 < k < rest.len() implies !p(#[trigger] rest[k]) by {
            assert(rest[k] == s[k + f + 1]);
        }
        the_last_piece_follows_the_last_separator(rest, p, i - f - 1);
        assert(rest.skip(i - f) =~= s.skip(i + 1));
    } else {
        assert(f == i);
        lemma_first_at(rest, p);
        if first_at(rest, p) < rest.len() {
            assert(rest[first_at(rest, p)] == s[first_at(rest, p) + f + 1]);
        }
        assert(pieces(rest, p) =~= seq![rest]);
    }
    assert(pieces(s, p) =~= seq![s.take(f)] + pieces(rest, p));
}

/// A text is cut at the first of its separators, and not at all without one.
pub proof fn a_cut_is_at_the_first_separator(a: Seq<char>, d: char, b: Seq<char>)
    requires
        !a.contains(d),
    ensures
        cut(a.push(d) + b, d) == Some((a, b)),
        cut(a, d) is None,
{
    assert forall|i: int| 0 <= i < a.len() implies !only(d)(#[trigger] a[i]) by {
        assert(a.contains(a[i]));
    }
    the_first_match_ends_the_rest(a, d, b, only(d));
    assert((a.push(d) + b).take(a.len() as int) =~= a);
    assert((a.push(d) + b).skip((a.len() + 1) as int) =~= b);
}

/// White space ends a word and belongs to none; every other run is a word.
pub proof fn words_end_at_white_space(a: Seq<char>, d: char, b: Seq<char>)
    requires
        forall|i: int| 0 <= i < a.len() ==> !is_space(#[trigger] a[i]),
        is_space(d),
    ensures
        words(seq![]).len() == 0,
        words(seq![d] + b) == words(b),
        a.len() > 0 ==> words(a) == seq![a],
        a.len() > 0 ==> words(a.push(d) + b) == seq![a] + words(b),
{
    let e = Seq::<char>::empty();
    assert((seq![d] + b).skip(1) =~= b);
    if a.len() > 0 {
        let s = a.push(d) + b;
        assert forall|i: int| 0 <= i < a.len() implies !spaces()(#[trigger] a[i]) by {}
        the_first_match_ends_the_rest(a, d, b, spaces());
        assert(!is_space(a[0]));
        assert(a.take(a.len() as int) =~= a);
        assert(a.skip(a.len() as int) =~= e);
        assert(words(e) =~= seq![]);
        assert(words(a) =~= seq![a]);
        assert(s[0] == a[0]);
        assert(s.take(a.len() as int) =~= a);
        assert(s.skip(a.len() as int) =~= seq![d] + b);
    }
}

/// What is dropped at the front is the run of characters looked for, and no more.
pub proof fn leading_runs_are_dropped(a: Seq<char>, t: Seq<char>, p: spec_fn(char) -> bool)
    requires
        forall|i: int| 0 <= i < a.len() ==> p(#[trigger] a[i]),
        t.len() > 0 ==> !p(t[0]),
    ensures
        drop_leading(a + t, p) == t,
    decreases a.len(),
{
    if a.len() > 0 {
        assert((a + t).skip(1) =~= a.skip(1) + t);
        assert forall|i: int| 0 <= i < a.skip(1).len() implies p(#[trigger] a.skip(1)[i]) by {
            assert(a.skip(1)[i] == a[i + 1]);
        }
        assert((a + t)[0] == a[0]);
        leading_runs_are_dropped(a.skip(1), t, p);
    } else {
        assert(a + t =~= t);
    }
}

/// What is dropped at the end is the run of characters looked for, and no more.
pub proof fn trailing_runs_are_dropped(t: Seq<char>, a: Seq<char>, p: spec_fn(char) -> bool)
    requires
        forall|i: int| 0 <= i < a.len() ==> p(#[trigger] a[i]),
        t.len() > 0 ==> !p(t.last()),
    ensures
        drop_trailing(t + a, p) == t,
    decreases a.len(),
{
    if a.len() > 0 {
        assert((t + a).drop_last() =~= t + a.drop_last());
        assert((t + a).last() == a[a.len() - 1]);
        trailing_runs_are_dropped(t, a.drop_last(), p);
    } else {
        assert(t + a =~= t);
    }
}

/// Trimming takes the white space off both ends and leaves what stands between.
pub proof fn trimming_takes_both_ends(a: Seq<char>, t: Seq<char>, b: Seq<char>)
    requires
        forall|i: int| 0 <= i < a.len() ==> is_space(#[trigger] a[i]),
        forall|i: int| 0 <= i < b.len() ==> is_space(#[trigger] b[i]),
        t.len() > 0,
        !is_space(t[0]),
        !is_space(t.last()),
    ensures
        trimmed(a + t + b) == t,
{
    assert(a + t + b =~= a + (t + b));
    assert((t + b)[0] == t[0]);
    leading_runs_are_dropped(a, t + b, spaces());
    trailing_runs_are_dropped(t, b, spaces());
}

/// Each occurrence gives way to the replacement; what stands before the first
/// one is kept.
pub proof fn replacing_takes_each_occurrence(
    a: Seq<char>,
    from: Seq<char>,
    to: Seq<char>,
    b: Seq<char>,
)
    requires
        from.len() > 0,
        forall|i: int| 0 <= i < a.len() ==> !#[trigger] occurs_at(a + from + b, from, i),
    ensures
        replaced(a + from + b, from, to) == a + to + replaced(b, from, to),
    decreases a.len(),
{
    let s = a + from + b;
    if a.len() == 0 {
        assert(s =~= from + b);
        assert(from.is_prefix_of(s));
        assert(s.skip(from.len() as int) =~= b);
        assert(replaced(s, from, to) =~= a + to + replaced(b, from, to));
    } else {
        let t = a.skip(1) + from + b;
        assert(s.skip(1) =~= t);
        assert(!occurs_at(s, from, 0));
        if from.is_prefix_of(s) {
            assert(s.subrange(0, from.len() as int) =~= from);
        }
        assert forall|i: int| 0 <= i < a.skip(1).len() implies !#[trigger] occurs_at(
            t,
            from,
            i,
        ) by {
            assert(!occurs_at(s, from, i + 1));
            if occurs_at(t, from, i) {
                assert(s.subrange(i + 1, i + 1 + from.len()) =~= t.subrange(i, i + from.len()));
            }
        }
        replacing_takes_each_occurrence(a.skip(1), from, to, b);
        assert(replaced(s, from, to) =~= a + to + replaced(b, from, to));
    }
}

/// A text in which nothing is to be replaced is kept.
pub proof fn replacing_keeps_the_rest(s: Seq<char>, from: Seq<char>, to: Seq<char>)
    requires
        has(s, from) == false,
    ensures
        replaced(s, from, to) == s,
    decreases s.len(),
{
    if s.len() > 0 && from.len() > 0 {
        assert(!occurs_at(s, from, 0));
        if from.is_prefix_of(s) {
            assert(s.subrange(0, from.len() as int) =~= from);
        }
        if has(s.skip(1), from) {
            let i = choose|i: int| #[trigger] occurs_at(s.skip(1), from, i);
            assert(s.subrange(i + 1, i + 1 + from.len()) =~= s.skip(1).subrange(
                i,
                i + from.len(),
            ));
            assert(occurs_at(s, from, i + 1));
        }
        replacing_keeps_the_rest(s.skip(1), from, to);
        assert(replaced(s, from, to) =~= s);
    }
}

/// A number in decimal is digits without a leading zero that stand for it.
pub proof fn decimals_stand_for_their_number(n: nat)
    ensures
        all_digits(dec(n)),
        digits_value(dec(n)) == n,
        n > 0 ==> dec(n)[0] != '0',
        n < 10 ==> dec(n).len() == 1,
    decreases n,
{
    if n >= 10 {
        decimals_stand_for_their_number(n / 10);
        let front = dec(n / 10);
        let d = digit_char((n % 10) as int);
        assert(dec(n).drop_last() =~= front);
        assert(is_digit(d));
        assert forall|i: int| 0 <= i < dec(n).len() implies is_digit(#[trigger] dec(n)[i]) by {
            if i < front.len() {
                assert(dec(n)[i] == front[i]);
            }
        }
    } else {
        let s = dec(n);
        assert(s.len() == 1 && s[0] == digit_char(n as int));
        assert(s.drop_last().len() == 0);
        assert(digits_value(s.drop_last()) == 0);
        assert(is_digit(s[0]));
    }
}

/// A number that is written is read back, with a sign where it is negative.
pub proof fn written_numbers_are_read_back(n: nat, max: nat, i: int)
    requires
        n <= max,
        i64::MIN <= i <= i64::MAX,
    ensures
        parsed_nat(dec(n), max) == Some(n),
        parsed_nat(seq!['+'] + dec(n), max) == Some(n),
        parsed_i64(signed_dec(i)) == Some(i),
{
    decimals_stand_for_their_number(n);
    assert(is_digit(dec(n)[0]));
    assert((seq!['+'] + dec(n)).skip(1) =~= dec(n));
    let m: nat = if i < 0 {
        (-i) as nat
    } else {
        i as nat
    };
    decimals_stand_for_their_number(m);
    assert(is_digit(dec(m)[0]));
    if i < 0 {
        assert(signed_dec(i).skip(1) =~= dec(m));
    }
}

/// Only digits are read as a number, and a larger number than is allowed is not
/// read.
pub proof fn other_texts_are_no_number(s: Seq<char>, max: nat, i: int)
    requires
        0 <= i < s.len(),
        !('0' <= s[i] && s[i] <= '9'),
        i > 0 || s[i] != '+',
    ensures
        parsed_nat(s, max) is None,
        i > 0 || s[i] != '-' ==> parsed_i64(s) is None,
        parsed_nat(seq![], max) is None,
{
    let t = s.skip(1);
    if i > 0 {
        assert(t[i - 1] == s[i]);
        assert(!is_digit(t[i - 1]));
    }
    assert(!is_digit(s[i]));
}

/// Every byte is two hexadecimal digits, the high half first.
pub proof fn hex_has_two_digits_a_byte(bytes: Seq<u8>, i: int)
    requires
        0 <= i < bytes.len(),
    ensures
        hex(bytes).len() == 2 * bytes.len(),
        hex(bytes)[2 * i] == hex_digit(bytes[i] as int / 16),
        hex(bytes)[2 * i + 1] == hex_digit(bytes[i] as int % 16),
    decreases bytes.len(),
{
    let front = bytes.drop_last();
    if front.len() > 0 {
        hex_has_two_digits_a_byte(front, if i < front.len() { i } else { 0 });
    } else {
        assert(hex(front).len() == 0);
    }
    if i < front.len() {
        assert(hex(bytes)[2 * i] == hex(front)[2 * i]);
        assert(hex(bytes)[2 * i + 1] == hex(front)[2 * i + 1]);
    }
}

/// The hexadecimal digits are those from zero to nine and from `a` to `f`.
pub proof fn hex_digits_tell_values_apart(d: int)
    requires
        0 <= d < 16,
    ensures
        d < 10 ==> hex_digit(d) as int == 48 + d,
        d >= 10 ==> hex_digit(d) as int == 87 + d,
{
}

/// The order of texts is that of their first difference; a text comes before
/// those that it begins.
pub proof fn order_is_by_the_first_difference(p: Seq<char>, a: char, b: char, x: Seq<char>, y: Seq<char>)
    requires
        a < b,
    ensures
        precedes(p.push(a) + x, p.push(b) + y),
        !precedes(p.push(b) + y, p.push(a) + x),
        precedes(p, p.push(a) + x),
        !precedes(p, p),
    decreases p.len(),
{
    let s = p.push(a) + x;
    let t = p.push(b) + y;
    if p.len() > 0 {
        order_is_by_the_first_difference(p.skip(1), a, b, x, y);
        assert(s.skip(1) =~= p.skip(1).push(a) + x);
        assert(t.skip(1) =~= p.skip(1).push(b) + y);
    }
}

/// One more separator and text behind a text is one more piece.
pub proof fn a_piece_is_added_at_the_end(
    s: Seq<char>,
    d: char,
    t: Seq<char>,
    p: spec_fn(char) -> bool,
)
    requires
        p(d),
        forall|i: int| 0 <= i < t.len() ==> !p(#[trigger] t[i]),
    ensures
        pieces(s, p).len() > 0,
        pieces(s.push(d) + t, p) == pieces(s, p).push(t),
    decreases s.len(),
{
    let f = first_at(s, p);
    lemma_first_at(s, p);
    let whole = s.push(d) + t;
    if f < s.len() {
        let a = s.take(f);
        let rest = s.skip(f + 1);
        assert forall|i: int| 0 <= i < a.len() implies !p(#[trigger] a[i]) by {
            assert(a[i] == s[i]);
        }
        a_piece_is_added_at_the_end(rest, d, t, p);
        assert(whole =~= a.push(s[f]) + (rest.push(d) + t));
        pieces_end_at_separators(a, s[f], rest.push(d) + t, p);
        assert(pieces(whole, p) =~= pieces(s, p).push(t));
    } else {
        pieces_end_at_separators(s, d, t, p);
        pieces_end_at_separators(t, d, t, p);
        assert(pieces(whole, p) =~= pieces(s, p).push(t));
    }
}

/// A text without the separator is one piece.
pub proof fn a_text_without_separator_is_one_piece(t: Seq<char>, d: char)
    requires
        !t.contains(d),
    ensures
        pieces(t, only(d)) == seq![t],
{
    assert forall|i: int| 0 <= i < t.len() implies !only(d)(#[trigger] t[i]) by {
        assert(t.contains(t[i]));
    }
    pieces_end_at_separators(t, d, t, only(d));
}

} // verus!
