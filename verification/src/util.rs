//! Small helpers shared across modules, and a capped map for counters keyed by
//! caller-influenced strings.

use vstd::prelude::*;
use vstd::utf8::{
    char_is_scalar, decode_utf8, decode_utf8_encode_utf8, decode_utf8_split, encode_utf8,
    encode_utf8_decode_utf8, encode_utf8_first_scalar, encode_utf8_valid_utf8, is_char_boundary,
    is_char_boundary_start_end_of_seq, pop_first_scalar, valid_utf8_split,
};

use crate::text::{cat, cat3, contains_char, hex, hex_of, lower, lower_char, only, same, some_char};
use crate::weburl::{redacted, redacted_keeps_no_query, url_parsed, Url};

verus! {

/// Whether two strings are equal, in time that depends on their lengths alone.
pub fn constant_time_eq(a: &str, b: &str) -> (r: bool)
    ensures
        r == (a@ == b@),
{
    let x = a.as_bytes();
    let y = b.as_bytes();
    proof {
        encode_utf8_decode_utf8(a@);
        encode_utf8_decode_utf8(b@);
    }
    if x.len() != y.len() {
        return false;
    }
    let mut diff: u8 = 0;
    for i in 0..x.len()
        invariant
            x@.len() == y@.len(),
            diff == 0 <==> forall|k: int| 0 <= k < i ==> x@[k] == y@[k],
    {
        let p: u8 = x[i];
        let q: u8 = y[i];
        assert((diff | (p ^ q)) == 0 <==> diff == 0 && p == q) by (bit_vector);
        diff = diff | (p ^ q);
    }
    if diff == 0 {
        assert(x@ =~= y@);
    }
    diff == 0
}

/// `url` with its query string and fragment stripped, for logging. Stream and
/// player URLs routinely carry one-time tokens there.
pub fn redact_url_query(url: &Url) -> (r: String)
    ensures
        match url_parsed(url@.text) {
            Ok(u) => r@ == redacted(u),
            Err(_) => r@ == url@.text,
        },
        url_parsed(url@.text) is Ok ==> !r@.contains('?') && !r@.contains('#'),
{
    proof {
        if url_parsed(url@.text) is Ok {
            redacted_keeps_no_query(url_parsed(url@.text)->Ok_0);
        }
    }
    url.without_query()
}

/// The bytes of a clock reading, the lowest first, over and over.
pub open spec fn clock_bytes(n: nat, nanos: u128) -> Seq<u8> {
    Seq::new(n, |i: int| byte_of(nanos, (i % 16) as nat))
}

/// Byte `k` of a number, counted from the lowest.
pub open spec fn byte_of(x: u128, k: nat) -> u8
    decreases k,
{
    if k == 0 {
        (x % 256) as u8
    } else {
        byte_of(x / 256, (k - 1) as nat)
    }
}

fn clock_byte(x: u128, k: usize) -> (r: u8)
    ensures
        r == byte_of(x, k as nat),
    decreases k,
{
    if k == 0 {
        (x % 256) as u8
    } else {
        clock_byte(x / 256, k - 1)
    }
}

/// A hex-encoded token of `bytes` bytes: of the random bytes that were read, or,
/// where reading them failed, of the clock.
pub fn random_token(bytes: usize, random: &Option<Vec<u8>>, nanos: u128) -> (r: String)
    requires
        random matches Some(b) ==> b@.len() == bytes,
    ensures
        r@ == hex(
            match *random {
                Some(b) => b@,
                None => clock_bytes(bytes as nat, nanos),
            },
        ),
        r@.len() == 2 * bytes,
{
    match random {
        Some(b) => hex_of(b),
        None => {
            let mut buf: Vec<u8> = Vec::new();
            for i in 0..bytes
                invariant
                    buf@ =~= clock_bytes(bytes as nat, nanos).take(i as int),
            {
                buf.push(clock_byte(nanos, i % 16));
            }
            assert(buf@ =~= clock_bytes(bytes as nat, nanos));
            hex_of(&buf)
        },
    }
}

/// A relative name below a directory.
pub open spec fn path_join(dir: Seq<char>, name: Seq<char>) -> Seq<char> {
    if dir.len() == 0 || dir.last() == '/' {
        dir + name
    } else {
        dir + "/"@ + name
    }
}

/// A relative name below a directory.
pub fn join_path(dir: &str, name: &str) -> (r: String)
    ensures
        r@ == path_join(dir@, name@),
{
    let n: usize = dir.unicode_len();
    if n == 0 || dir.get_char(n - 1) == '/' {
        cat(dir, name)
    } else {
        cat3(dir, "/", name)
    }
}

/// Where an executable may be: a name with a slash is a path, any other is looked
/// for in each directory in turn.
pub open spec fn places(name: Seq<char>, dirs: Seq<Seq<char>>) -> Seq<Seq<char>> {
    if some_char(name, only('/')) {
        seq![name]
    } else {
        dirs.map_values(|d: Seq<char>| path_join(d, name))
    }
}

/// Where an executable may be; the first place that is a file is it.
pub fn which(name: &str, dirs: &Vec<String>) -> (r: Vec<String>)
    ensures
        r.deep_view() == places(name@, dirs.deep_view()),
{
    let mut out: Vec<String> = Vec::new();
    if contains_char(name, '/') {
        out.push(name.to_owned());
        assert(out.deep_view() =~= seq![name@]);
        return out;
    }
    for i in 0..dirs.len()
        invariant
            out@.len() == i,
            forall|k: int| 0 <= k < i ==> (#[trigger] out@[k])@ == path_join(dirs@[k]@, name@),
    {
        out.push(join_path(dirs[i].as_str(), name));
    }
    assert(out.deep_view() =~= dirs.deep_view().map_values(|d: Seq<char>| path_join(d, name@)));
    out
}

// ---------------------------------------------------------------------------
// Cutting strings at byte positions
// ---------------------------------------------------------------------------

/// The first `n` bytes of a string.
pub open spec fn byte_prefix(s: Seq<char>, n: int) -> Seq<char> {
    decode_utf8(encode_utf8(s).subrange(0, n))
}

/// What follows the first `n` bytes of a string.
pub open spec fn byte_suffix(s: Seq<char>, n: int) -> Seq<char> {
    decode_utf8(encode_utf8(s).subrange(n, encode_utf8(s).len() as int))
}

pub open spec fn byte_len(s: Seq<char>) -> nat {
    encode_utf8(s).len()
}

/// Split a string at a byte position between two characters.
pub fn split_bytes(s: &str, n: usize) -> (r: (String, String))
    requires
        is_char_boundary(encode_utf8(s@), n as int),
    ensures
        r.0@ == byte_prefix(s@, n as int),
        r.1@ == byte_suffix(s@, n as int),
{
    let (a, b) = s.split_at(n);
    proof {
        encode_utf8_decode_utf8(a@);
        encode_utf8_decode_utf8(b@);
    }
    (a.to_owned(), b.to_owned())
}

/// The last position up to `n` that lies between two characters.
pub open spec fn floor_boundary(bytes: Seq<u8>, n: nat) -> nat
    decreases n,
{
    if n == 0 || is_char_boundary(bytes, n as int) {
        n
    } else {
        floor_boundary(bytes, (n - 1) as nat)
    }
}

/// As much of a string as fits `cap` bytes.
pub open spec fn capped(s: Seq<char>, cap: nat) -> Seq<char> {
    let n = if byte_len(s) <= cap {
        byte_len(s)
    } else {
        cap
    };
    byte_prefix(s, floor_boundary(encode_utf8(s), n) as int)
}

/// As much of `s` as fits `cap` bytes.
pub fn cap_bytes(s: &str, cap: usize) -> (r: String)
    ensures
        r@ == capped(s@, cap as nat),
{
    let ghost bytes = encode_utf8(s@);
    proof {
        encode_utf8_valid_utf8(s@);
        is_char_boundary_start_end_of_seq(bytes);
    }
    let total: usize = s.as_bytes().len();
    let mut end: usize = if total <= cap {
        total
    } else {
        cap
    };
    let ghost start = end as nat;
    while end > 0 && !s.is_char_boundary(end)
        invariant
            bytes == encode_utf8(s@),
            end <= bytes.len(),
            floor_boundary(bytes, start) == floor_boundary(bytes, end as nat),
        decreases end,
    {
        end = end - 1;
    }
    split_bytes(s, end).0
}

proof fn lemma_floor_boundary(bytes: Seq<u8>, n: nat)
    requires
        is_char_boundary(bytes, 0),
    ensures
        floor_boundary(bytes, n) <= n,
        is_char_boundary(bytes, floor_boundary(bytes, n) as int),
    decreases n,
{
    if n > 0 && !is_char_boundary(bytes, n as int) {
        lemma_floor_boundary(bytes, (n - 1) as nat);
    }
}

/// A cut between two characters leaves so many of the first characters.
proof fn lemma_byte_prefix(s: Seq<char>, n: int)
    requires
        is_char_boundary(encode_utf8(s), n),
        0 <= n <= byte_len(s),
    ensures
        byte_prefix(s, n).len() <= s.len(),
        byte_prefix(s, n) == s.take(byte_prefix(s, n).len() as int),
        byte_len(byte_prefix(s, n)) == n,
{
    let bytes = encode_utf8(s);
    encode_utf8_valid_utf8(s);
    encode_utf8_decode_utf8(s);
    valid_utf8_split(bytes, n);
    decode_utf8_split(bytes, n);
    decode_utf8_encode_utf8(bytes.subrange(0, n));
    let rest = decode_utf8(bytes.subrange(n, bytes.len() as int));
    assert(s =~= byte_prefix(s, n) + rest);
    assert(byte_prefix(s, n) =~= s.take(byte_prefix(s, n).len() as int));
}

/// As much as fits is a prefix, fits, and is everything where everything fits.
pub proof fn capped_is_a_prefix_that_fits(s: Seq<char>, cap: nat)
    ensures
        capped(s, cap).len() <= s.len(),
        capped(s, cap) == s.take(capped(s, cap).len() as int),
        byte_len(capped(s, cap)) <= cap,
        byte_len(s) <= cap ==> capped(s, cap) == s,
{
    let n = if byte_len(s) <= cap {
        byte_len(s)
    } else {
        cap
    };
    encode_utf8_valid_utf8(s);
    encode_utf8_decode_utf8(s);
    is_char_boundary_start_end_of_seq(encode_utf8(s));
    lemma_floor_boundary(encode_utf8(s), n);
    lemma_byte_prefix(s, floor_boundary(encode_utf8(s), n) as int);
    assert(encode_utf8(s).subrange(0, encode_utf8(s).len() as int) =~= encode_utf8(s));
}

/// More of the first characters take more bytes.
proof fn lemma_longer(s: Seq<char>, i: int, j: int)
    requires
        0 <= i < j <= s.len(),
    ensures
        byte_len(s.take(i)) < byte_len(s.take(j)),
    decreases i,
{
    char_is_scalar(s[0]);
    if i > 0 {
        assert(s.take(i).drop_first() =~= s.drop_first().take(i - 1));
        assert(s.take(j).drop_first() =~= s.drop_first().take(j - 1));
        lemma_longer(s.drop_first(), i - 1, j - 1);
    }
}

/// Texts that differ in ASCII case alone have as many bytes, and their characters
/// stand at the same bytes.
proof fn lemma_case_keeps_bytes(a: Seq<char>, b: Seq<char>, n: int)
    requires
        lower(a) == lower(b),
    ensures
        a.len() == b.len(),
        byte_len(a) == byte_len(b),
        is_char_boundary(encode_utf8(a), n) == is_char_boundary(encode_utf8(b), n),
    decreases a.len(),
{
    assert(lower(a).len() == a.len());
    assert(lower(b).len() == b.len());
    encode_utf8_valid_utf8(a);
    encode_utf8_valid_utf8(b);
    if a.len() > 0 {
        assert(lower(a)[0] == lower_char(a[0]));
        assert(lower(b)[0] == lower_char(b[0]));
        assert(lower(a.drop_first()) =~= lower(a).drop_first());
        assert(lower(b.drop_first()) =~= lower(b).drop_first());
        encode_utf8_first_scalar(a);
        encode_utf8_first_scalar(b);
        let k = vstd::utf8::encode_scalar(a[0] as u32).len();
        assert(pop_first_scalar(encode_utf8(a)) =~= encode_utf8(a.drop_first()));
        assert(pop_first_scalar(encode_utf8(b)) =~= encode_utf8(b.drop_first()));
        lemma_case_keeps_bytes(a.drop_first(), b.drop_first(), n - k);
    } else {
        assert(a =~= b);
    }
}

proof fn lemma_case_keeps_floor(a: Seq<char>, b: Seq<char>, n: nat)
    requires
        lower(a) == lower(b),
    ensures
        floor_boundary(encode_utf8(a), n) == floor_boundary(encode_utf8(b), n),
    decreases n,
{
    lemma_case_keeps_bytes(a, b, n as int);
    if n > 0 {
        lemma_case_keeps_floor(a, b, (n - 1) as nat);
    }
}

/// As much as fits of texts that differ in ASCII case alone differs in case alone.
pub proof fn capped_ignores_case(a: Seq<char>, b: Seq<char>, cap: nat)
    requires
        lower(a) == lower(b),
    ensures
        lower(capped(a, cap)) == lower(capped(b, cap)),
{
    lemma_case_keeps_bytes(a, b, 0);
    let n = if byte_len(a) <= cap {
        byte_len(a)
    } else {
        cap
    };
    encode_utf8_valid_utf8(a);
    encode_utf8_valid_utf8(b);
    is_char_boundary_start_end_of_seq(encode_utf8(a));
    is_char_boundary_start_end_of_seq(encode_utf8(b));
    lemma_floor_boundary(encode_utf8(a), n);
    lemma_floor_boundary(encode_utf8(b), n);
    lemma_case_keeps_floor(a, b, n);
    let k = floor_boundary(encode_utf8(a), n) as int;
    lemma_byte_prefix(a, k);
    lemma_byte_prefix(b, k);
    let i = capped(a, cap).len() as int;
    let j = capped(b, cap).len() as int;
    assert(lower(a.take(i)) =~= lower(a).take(i));
    assert(lower(b.take(i)) =~= lower(b).take(i));
    lemma_case_keeps_bytes(a.take(i), b.take(i), 0);
    if i < j {
        lemma_longer(b, i, j);
    } else if j < i {
        lemma_longer(b, j, i);
    }
}

/// Append to a buffer and keep its last `cap` bytes.
///
/// The cut must fall between two characters.
pub fn push_bounded(sink: &mut String, chunk: &str, cap: usize)
    requires
        byte_len(old(sink)@ + chunk@) > cap ==> is_char_boundary(
            encode_utf8(old(sink)@ + chunk@),
            byte_len(old(sink)@ + chunk@) - cap,
        ),
    ensures
        final(sink)@ == if byte_len(old(sink)@ + chunk@) > cap {
            byte_suffix(old(sink)@ + chunk@, byte_len(old(sink)@ + chunk@) - cap)
        } else {
            old(sink)@ + chunk@
        },
{
    sink.append(chunk);
    let total: usize = sink.as_str().as_bytes().len();
    if total > cap {
        let (_, tail) = split_bytes(sink.as_str(), total - cap);
        *sink = tail;
    }
}

// ---------------------------------------------------------------------------
// BoundedMap
// ---------------------------------------------------------------------------

/// A key that can be told apart from others.
pub trait MapKey: View + Sized {
    fn same_key(&self, other: &Self) -> (r: bool)
        ensures
            r == (self@ == other@),
    ;
}

impl MapKey for String {
    fn same_key(&self, other: &Self) -> (r: bool) {
        same(self.as_str(), other.as_str())
    }
}

/// Where a key stands in a list of entries.
pub open spec fn index_of_key<A, B>(s: Seq<(A, B)>, k: A) -> Option<int>
    decreases s.len(),
{
    if s.len() == 0 {
        None
    } else if s[0].0 == k {
        Some(0)
    } else {
        match index_of_key(s.skip(1), k) {
            Some(i) => Some(i + 1),
            None => None,
        }
    }
}

pub open spec fn distinct_keys<A, B>(s: Seq<(A, B)>) -> bool {
    forall|i: int, j: int| 0 <= i < j < s.len() ==> (#[trigger] s[i]).0 != (#[trigger] s[j]).0
}

pub proof fn lemma_index_of_key<A, B>(s: Seq<(A, B)>, k: A)
    ensures
        match index_of_key(s, k) {
            Some(i) => 0 <= i < s.len() && s[i].0 == k && forall|j: int|
                0 <= j < i ==> (#[trigger] s[j]).0 != k,
            None => forall|j: int| 0 <= j < s.len() ==> (#[trigger] s[j]).0 != k,
        },
    decreases s.len(),
{
    if s.len() > 0 && s[0].0 != k {
        let t = s.skip(1);
        lemma_index_of_key(t, k);
        assert forall|j: int| 0 < j < s.len() implies #[trigger] s[j] == t[j - 1] by {}
    }
}

/// Overwriting an entry's value keeps keys distinct.
pub proof fn lemma_update_keeps_distinct<A, B>(s: Seq<(A, B)>, i: int, v: B)
    requires
        distinct_keys(s),
        0 <= i < s.len(),
    ensures
        distinct_keys(s.update(i, (s[i].0, v))),
{
}

/// What a key stands for in a list of entries.
pub open spec fn lookup<A, B>(s: Seq<(A, B)>, k: A) -> Option<B> {
    match index_of_key(s, k) {
        Some(i) => Some(s[i].1),
        None => None,
    }
}

/// The entries after `k` has been set to `v`, in its place or last.
pub open spec fn upserted<A, B>(s: Seq<(A, B)>, k: A, v: B) -> Seq<(A, B)> {
    match index_of_key(s, k) {
        Some(i) => s.update(i, (k, v)),
        None => s.push((k, v)),
    }
}

/// The entries without `k`.
pub open spec fn without_key<A, B>(s: Seq<(A, B)>, k: A) -> Seq<(A, B)> {
    match index_of_key(s, k) {
        Some(i) => s.remove(i),
        None => s,
    }
}

/// Where a key stands in a list.
pub fn find_key<V: DeepView>(v: &Vec<(String, V)>, k: &str) -> (r: Option<usize>)
    ensures
        match r {
            Some(i) => index_of_key(v.deep_view(), k@) == Some(i as int) && i < v@.len(),
            None => index_of_key(v.deep_view(), k@) is None,
        },
{
    let ghost all = v.deep_view();
    assert(all.skip(0) =~= all);
    for i in 0..v.len()
        invariant
            all == v.deep_view(),
            match index_of_key(all.skip(i as int), k@) {
                Some(j) => index_of_key(all, k@) == Some(i + j),
                None => index_of_key(all, k@) is None,
            },
    {
        assert(all.skip(i as int)[0] == all[i as int]);
        assert(all[i as int].0 == v@[i as int].0@);
        assert(all.skip(i as int).skip(1) =~= all.skip(i + 1));
        if same(v[i].0.as_str(), k) {
            return Some(i);
        }
    }
    None
}

/// The entries after `k` has been set to `v`: an entry keeps its place, a new
/// one goes last and, at capacity, the oldest one goes.
pub open spec fn bounded_insert<A, B>(s: Seq<(A, B)>, cap: nat, k: A, v: B) -> Seq<(A, B)> {
    match index_of_key(s, k) {
        Some(i) => s.update(i, (k, v)),
        None => if s.len() >= cap && s.len() > 0 {
            s.skip(1).push((k, v))
        } else {
            s.push((k, v))
        },
    }
}

/// A map capped at `cap` entries, evicting the oldest-inserted key (FIFO, not a
/// true LRU) once full. For keys that an unauthenticated caller influences.
pub struct BoundedMap<K, V> {
    items: Vec<(K, V)>,
    cap: usize,
}

impl<K: MapKey, V> View for BoundedMap<K, V> {
    type V = Seq<(K::V, V)>;

    /// The entries, oldest first.
    closed spec fn view(&self) -> Seq<(K::V, V)> {
        Seq::new(self.items@.len(), |i: int| (self.items@[i].0@, self.items@[i].1))
    }
}

impl<K: MapKey, V> BoundedMap<K, V> {
    pub closed spec fn capacity(&self) -> nat {
        self.cap as nat
    }

    /// Never over capacity, and no key twice.
    pub open spec fn wf(&self) -> bool {
        &&& self.capacity() >= 1
        &&& self@.len() <= self.capacity()
        &&& distinct_keys(self@)
    }

    pub fn new(cap: usize) -> (r: Self)
        ensures
            r.wf(),
            r@ == Seq::<(K::V, V)>::empty(),
            r.capacity() == if cap == 0 {
                1
            } else {
                cap as nat
            },
    {
        let r = BoundedMap {
            items: Vec::new(),
            cap: if cap == 0 {
                1
            } else {
                cap
            },
        };
        assert(r@ =~= seq![]);
        r
    }

    fn position(&self, k: &K) -> (r: Option<usize>)
        ensures
            match r {
                Some(i) => index_of_key(self@, k@) == Some(i as int) && i < self@.len(),
                None => index_of_key(self@, k@) is None,
            },
    {
        assert(self@.skip(0) =~= self@);
        for i in 0..self.items.len()
            invariant
                match index_of_key(self@.skip(i as int), k@) {
                    Some(j) => index_of_key(self@, k@) == Some(i + j),
                    None => index_of_key(self@, k@) is None,
                },
        {
            assert(self@.skip(i as int)[0] == self@[i as int]);
            assert(self@.skip(i as int).skip(1) =~= self@.skip(i + 1));
            if self.items[i].0.same_key(k) {
                return Some(i);
            }
        }
        None
    }

    pub fn get(&self, k: &K) -> (r: Option<&V>)
        ensures
            match r {
                Some(v) => index_of_key(self@, k@) matches Some(i) && *v == self@[i].1,
                None => index_of_key(self@, k@) is None,
            },
    {
        match self.position(k) {
            Some(i) => Some(&self.items[i].1),
            None => None,
        }
    }

    pub fn get_mut(&mut self, k: &K) -> (r: Option<&mut V>)
        ensures
            final(self).capacity() == old(self).capacity(),
            match r {
                Some(v) => index_of_key(old(self)@, k@) matches Some(i) && *v == old(self)@[i].1
                    && final(self)@ == old(self)@.update(i, (k@, *final(v))),
                None => index_of_key(old(self)@, k@) is None && final(self)@ == old(self)@,
            },
    {
        proof {
            lemma_index_of_key(self@, k@);
        }
        match self.position(k) {
            Some(i) => {
                let item = &mut self.items[i];
                Some(&mut item.1)
            },
            None => None,
        }
    }

    pub fn len(&self) -> (r: usize)
        ensures
            r == self@.len(),
    {
        self.items.len()
    }

    pub fn is_empty(&self) -> (r: bool)
        ensures
            r == (self@.len() == 0),
    {
        self.items.len() == 0
    }

    /// The entries, oldest first.
    pub fn iter(&self) -> (r: &Vec<(K, V)>)
        ensures
            r@.len() == self@.len(),
            forall|i: int|
                0 <= i < r@.len() ==> (#[trigger] r@[i]).0@ == self@[i].0 && r@[i].1 == self@[i].1,
    {
        &self.items
    }

    /// Insert (or overwrite) `k`. Evicts the oldest key first when at capacity
    /// and `k` is not already present.
    pub fn insert(&mut self, k: K, v: V)
        requires
            old(self).wf(),
        ensures
            final(self).wf(),
            final(self).capacity() == old(self).capacity(),
            final(self)@ == bounded_insert(old(self)@, old(self).capacity(), k@, v),
    {
        let ghost before = self@;
        let ghost kv = k@;
        proof {
            lemma_index_of_key(before, kv);
        }
        match self.position(&k) {
            Some(i) => {
                self.items.set(i, (k, v));
                assert(self@ =~= before.update(i as int, (kv, v)));
            },
            None => {
                if self.items.len() >= self.cap {
                    self.items.remove(0);
                    assert(self@ =~= before.skip(1));
                }
                let ghost mid = self@;
                self.items.push((k, v));
                assert(self@ =~= mid.push((kv, v)));
            },
        }
    }

    /// Remove `k` and hand back what it stood for.
    pub fn remove(&mut self, k: &K) -> (r: Option<V>)
        requires
            old(self).wf(),
        ensures
            final(self).wf(),
            final(self).capacity() == old(self).capacity(),
            match r {
                Some(v) => index_of_key(old(self)@, k@) matches Some(i) && v == old(self)@[i].1
                    && final(self)@ == old(self)@.remove(i),
                None => index_of_key(old(self)@, k@) is None && final(self)@ == old(self)@,
            },
    {
        let ghost before = self@;
        proof {
            lemma_index_of_key(before, k@);
        }
        match self.position(k) {
            Some(i) => {
                let (_, v) = self.items.remove(i);
                assert(self@ =~= before.remove(i as int));
                Some(v)
            },
            None => None,
        }
    }
}

/// Setting a key that is present evicts nothing: every key stays, in its place.
pub proof fn reinsert_does_not_evict<A, B>(s: Seq<(A, B)>, cap: nat, k: A, v: B, j: int)
    requires
        index_of_key(s, k) is Some,
        0 <= j < s.len(),
    ensures
        bounded_insert(s, cap, k, v).len() == s.len(),
        bounded_insert(s, cap, k, v)[j].0 == s[j].0,
{
    lemma_index_of_key(s, k);
}

/// A new key at capacity evicts the oldest key and no other.
pub proof fn full_map_evicts_the_oldest<A, B>(s: Seq<(A, B)>, cap: nat, k: A, v: B, j: int)
    requires
        distinct_keys(s),
        index_of_key(s, k) is None,
        0 < s.len(),
        s.len() >= cap,
        0 < j < s.len(),
    ensures
        bounded_insert(s, cap, k, v).len() == s.len(),
        index_of_key(bounded_insert(s, cap, k, v), s[0].0) is None,
        bounded_insert(s, cap, k, v)[j - 1] == s[j],
        bounded_insert(s, cap, k, v).last() == (k, v),
{
    let t = bounded_insert(s, cap, k, v);
    lemma_index_of_key(s, k);
    lemma_index_of_key(t, s[0].0);
    assert forall|i: int| 0 <= i < t.len() implies (#[trigger] t[i]).0 != s[0].0 by {
        if i < t.len() - 1 {
            assert(t[i] == s[i + 1]);
        }
    }
}

/// A key stands for what it was set to, and no other key changes.
pub proof fn setting_a_key_sets_it_alone<A, B>(s: Seq<(A, B)>, k: A, v: B, other: A)
    ensures
        lookup(upserted(s, k, v), k) == Some(v),
        other != k ==> lookup(upserted(s, k, v), other) == lookup(s, other),
{
    let t = upserted(s, k, v);
    lemma_index_of_key(s, k);
    lemma_index_of_key(t, k);
    lemma_index_of_key(s, other);
    lemma_index_of_key(t, other);
    match index_of_key(s, k) {
        Some(i) => {
            assert(t[i] == (k, v));
        },
        None => {
            assert(t[s.len() as int] == (k, v));
        },
    }
    if other != k {
        if let Some(i) = index_of_key(s, other) {
            assert(t[i] == s[i]);
        }
        if let Some(i) = index_of_key(t, other) {
            assert(t[i] == s[i]);
        }
    }
}

/// A key that was removed stands for nothing, and no other key changes.
pub proof fn removing_a_key_removes_it_alone<A, B>(s: Seq<(A, B)>, k: A, other: A)
    requires
        distinct_keys(s),
    ensures
        lookup(without_key(s, k), k) is None,
        other != k ==> lookup(without_key(s, k), other) == lookup(s, other),
{
    let t = without_key(s, k);
    lemma_index_of_key(s, k);
    lemma_index_of_key(t, k);
    lemma_index_of_key(s, other);
    lemma_index_of_key(t, other);
    if let Some(i) = index_of_key(s, k) {
        assert forall|j: int| 0 <= j < t.len() implies #[trigger] t[j] == s[if j < i {
            j
        } else {
            j + 1
        }] by {}
        assert forall|j: int| 0 <= j < t.len() implies (#[trigger] t[j]).0 != k by {
            let o = if j < i {
                j
            } else {
                j + 1
            };
            assert(s[o].0 != s[i].0);
        }
        if other != k {
            if let Some(a) = index_of_key(s, other) {
                let b = if a < i {
                    a
                } else {
                    a - 1
                };
                assert(t[b] == s[a]);
                let c = index_of_key(t, other)->Some_0;
                let d = if c < i {
                    c
                } else {
                    c + 1
                };
                assert(t[c] == s[d]);
                if a != d {
                    assert(s[a].0 != s[d].0);
                }
            }
            if let Some(c) = index_of_key(t, other) {
                let d = if c < i {
                    c
                } else {
                    c + 1
                };
                assert(t[c] == s[d]);
            }
        }
    }
}

/// A key that was put into a bounded map stands for what was put there; below the
/// cap no other key changes.
pub proof fn a_bounded_map_holds_what_was_put<A, B>(s: Seq<(A, B)>, cap: nat, k: A, v: B, other: A)
    requires
        distinct_keys(s),
    ensures
        lookup(bounded_insert(s, cap, k, v), k) == Some(v),
        s.len() < cap && other != k ==> lookup(bounded_insert(s, cap, k, v), other) == lookup(
            s,
            other,
        ),
{
    let t = bounded_insert(s, cap, k, v);
    lemma_index_of_key(s, k);
    lemma_index_of_key(t, k);
    setting_a_key_sets_it_alone(s, k, v, other);
    if index_of_key(s, k) is None && s.len() >= cap && s.len() > 0 {
        assert forall|j: int| 0 <= j < s.len() - 1 implies #[trigger] t[j] == s[j + 1] by {}
        assert(t[s.len() - 1] == (k, v));
    }
}

/// A name stands below its directory, with one slash between.
pub proof fn names_stand_below_their_directory(dir: Seq<char>, name: Seq<char>)
    requires
        dir.len() > 0,
    ensures
        dir.last() != '/' ==> path_join(dir, name) == dir + seq!['/'] + name,
        dir.last() == '/' ==> path_join(dir, name) == dir + name,
{
    reveal_strlit("/");
    assert("/"@ =~= seq!['/']);
}

/// A program is looked for in every directory, in order; one that is named by a
/// path is where the path says.
pub proof fn programs_are_looked_for_everywhere(name: Seq<char>, dirs: Seq<Seq<char>>, i: int)
    ensures
        name.contains('/') ==> places(name, dirs) == seq![name],
        !name.contains('/') ==> places(name, dirs).len() == dirs.len(),
        !name.contains('/') && 0 <= i < dirs.len() ==> places(name, dirs)[i] == path_join(
            dirs[i],
            name,
        ),
{
    if name.contains('/') {
        let k = choose|k: int| 0 <= k < name.len() && name[k] == '/';
        assert(only('/')(name[k]));
    } else {
        assert forall|k: int| 0 <= k < name.len() implies !only('/')(#[trigger] name[k]) by {
            assert(name.contains(name[k]));
        }
    }
}

/// How many numbers `n` bytes tell apart.
pub open spec fn byte_range(n: nat) -> nat
    decreases n,
{
    if n == 0 {
        1
    } else {
        256 * byte_range((n - 1) as nat)
    }
}

proof fn lemma_bytes_tell_apart(x: u128, y: u128, n: nat)
    requires
        forall|k: nat| k < n ==> #[trigger] byte_of(x, k) == byte_of(y, k),
        x < byte_range(n),
        y < byte_range(n),
    ensures
        x == y,
    decreases n,
{
    if n > 0 {
        assert(byte_of(x, 0) == byte_of(y, 0));
        assert forall|k: nat| k < n - 1 implies #[trigger] byte_of(x / 256, k) == byte_of(
            y / 256,
            k,
        ) by {
            assert(byte_of(x, k + 1) == byte_of(y, k + 1));
        }
        lemma_bytes_tell_apart(x / 256, y / 256, (n - 1) as nat);
    }
}

/// Different times give different bytes, and the bytes go on from the start where
/// more are asked for than the time has.
pub proof fn the_clock_tells_times_apart(n: nat, x: u128, y: u128, i: int)
    ensures
        clock_bytes(n, x).len() == n,
        n >= 16 && clock_bytes(n, x) == clock_bytes(n, y) ==> x == y,
        0 <= i && i + 16 < n ==> clock_bytes(n, x)[i + 16] == clock_bytes(n, x)[i],
{
    if n >= 16 && clock_bytes(n, x) == clock_bytes(n, y) {
        assert forall|k: nat| k < 16 implies #[trigger] byte_of(x, k) == byte_of(y, k) by {
            assert(clock_bytes(n, x)[k as int] == clock_bytes(n, y)[k as int]);
            assert(k as int % 16 == k);
        }
        reveal_with_fuel(byte_range, 17);
        lemma_bytes_tell_apart(x, y, 16);
    }
}

} // verus!
