//! URLs as the rest of the crate reads them.

use vstd::prelude::*;

use crate::text::{drop_trailing, first_at, lemma_first_at, only, the_first_match_ends_the_rest};

verus! {

/// A parsed absolute URL: its serialisation and the parts that decisions read.
#[derive(Debug)]
pub struct Url {
    pub text: String,
    pub scheme: String,
    /// As serialised, so an IPv6 literal keeps its brackets.
    pub host: Option<String>,
    /// The port, or the scheme's default.
    pub port: Option<u16>,
    pub path: String,
}

/// What a URL stands for.
#[verifier::ext_equal]
pub struct UrlView {
    pub text: Seq<char>,
    pub scheme: Seq<char>,
    pub host: Option<Seq<char>>,
    pub port: Option<u16>,
    pub path: Seq<char>,
}

impl View for Url {
    type V = UrlView;

    open spec fn view(&self) -> UrlView {
        UrlView {
            text: self.text@,
            scheme: self.scheme@,
            host: self.host.deep_view(),
            port: self.port,
            path: self.path@,
        }
    }
}

impl DeepView for Url {
    type V = UrlView;

    open spec fn deep_view(&self) -> UrlView {
        self@
    }
}

/// What `url::Url::parse` makes of a string: the URL, or the text of its error.
pub uninterp spec fn url_parsed(s: Seq<char>) -> Result<UrlView, Seq<char>>;

/// What `url::Url::join` makes of a base and a reference: the URL, or the text of
/// its error.
pub uninterp spec fn url_joined(base: Seq<char>, rel: Seq<char>) -> Result<UrlView, Seq<char>>;

/// Whether the path is opaque: what follows the scheme does not start with a
/// slash.
pub open spec fn opaque_path(u: UrlView) -> bool {
    !(u.text.len() > u.scheme.len() + 1 && u.text[u.scheme.len() as int + 1] == '/')
}

/// Characters that start a query or a fragment.
pub open spec fn query_start() -> spec_fn(char) -> bool {
    |c: char| c == '?' || c == '#'
}

/// A URL's serialisation without its query and its fragment. An opaque path loses
/// the spaces at its end as well.
pub open spec fn redacted(u: UrlView) -> Seq<char> {
    let kept = u.text.take(first_at(u.text, query_start()));
    if opaque_path(u) {
        drop_trailing(kept, only(' '))
    } else {
        kept
    }
}

/// Calls `url::Url::parse`. The result, or the error's text, is named and
/// depends on the string alone.
#[verifier::external_body]
fn call_parse(s: &str) -> (r: Result<Url, String>)
    ensures
        match r {
            Ok(u) => url_parsed(s@) == Ok::<UrlView, Seq<char>>(u@),
            Err(e) => url_parsed(s@) == Err::<UrlView, Seq<char>>(e@),
        },
{
    match url::Url::parse(s) {
        Ok(u) => Ok(
            Url {
                text: u.as_str().to_string(),
                scheme: u.scheme().to_string(),
                host: u.host_str().map(str::to_string),
                port: u.port_or_known_default(),
                path: u.path().to_string(),
            },
        ),
        Err(e) => Err(e.to_string()),
    }
}

/// Calls `url::Url::join` on the parsed `base`. The result, or the text of the
/// error that either step reports, is named and depends on the two strings alone.
#[verifier::external_body]
fn call_join(base: &str, rel: &str) -> (r: Result<Url, String>)
    ensures
        match r {
            Ok(u) => url_joined(base@, rel@) == Ok::<UrlView, Seq<char>>(u@),
            Err(e) => url_joined(base@, rel@) == Err::<UrlView, Seq<char>>(e@),
        },
{
    match url::Url::parse(base).and_then(|b| b.join(rel)) {
        Ok(u) => Ok(
            Url {
                text: u.as_str().to_string(),
                scheme: u.scheme().to_string(),
                host: u.host_str().map(str::to_string),
                port: u.port_or_known_default(),
                path: u.path().to_string(),
            },
        ),
        Err(e) => Err(e.to_string()),
    }
}

/// Calls `url::Url::set_query(None)` and `url::Url::set_fragment(None)` on the
/// parsed string and serialises the result. The first `?` or `#` of a serialised
/// URL starts its query or its fragment, and the two calls cut it off there. Both
/// then drop the spaces at the end of an opaque path. A string that does not
/// parse is handed back.
#[verifier::external_body]
fn call_redact(s: &str) -> (r: String)
    ensures
        match url_parsed(s@) {
            Ok(u) => r@ == redacted(u),
            Err(_) => r@ == s@,
        },
{
    match url::Url::parse(s) {
        Ok(mut u) => {
            u.set_query(None);
            u.set_fragment(None);
            u.to_string()
        },
        Err(_) => s.to_string(),
    }
}

impl Url {
    /// Parse an absolute URL.
    pub fn parse(s: &str) -> (r: Result<Url, String>)
        ensures
            match r {
                Ok(u) => url_parsed(s@) == Ok::<UrlView, Seq<char>>(u@),
                Err(e) => url_parsed(s@) == Err::<UrlView, Seq<char>>(e@),
            },
    {
        call_parse(s)
    }

    /// Resolve a reference against this URL.
    pub fn join(&self, rel: &str) -> (r: Result<Url, String>)
        ensures
            match r {
                Ok(u) => url_joined(self@.text, rel@) == Ok::<UrlView, Seq<char>>(u@),
                Err(e) => url_joined(self@.text, rel@) == Err::<UrlView, Seq<char>>(e@),
            },
    {
        call_join(self.text.as_str(), rel)
    }

    pub fn as_str(&self) -> (r: &str)
        ensures
            r@ == self@.text,
    {
        self.text.as_str()
    }

    pub fn host_str(&self) -> (r: Option<&str>)
        ensures
            r.deep_view() == self@.host,
    {
        match &self.host {
            Some(h) => Some(h.as_str()),
            None => None,
        }
    }

    /// The serialisation without query and fragment.
    pub fn without_query(&self) -> (r: String)
        ensures
            match url_parsed(self@.text) {
                Ok(u) => r@ == redacted(u),
                Err(_) => r@ == self@.text,
            },
    {
        call_redact(self.text.as_str())
    }

    /// A copy.
    pub fn copy(&self) -> (r: Url)
        ensures
            r@ == self@,
    {
        Url {
            text: self.text.clone(),
            scheme: self.scheme.clone(),
            host: copy_opt(&self.host),
            port: self.port,
            path: self.path.clone(),
        }
    }
}

/// Neither query nor fragment is left of a redacted URL, and nothing but spaces
/// was dropped before them.
pub proof fn redacted_keeps_no_query(u: UrlView)
    ensures
        !redacted(u).contains('?'),
        !redacted(u).contains('#'),
        redacted(u) == u.text.take(redacted(u).len() as int),
        forall|i: int|
            redacted(u).len() <= i < first_at(u.text, query_start()) ==> #[trigger] u.text[i]
                == ' ',
{
    lemma_first_at(u.text, query_start());
    let kept = u.text.take(first_at(u.text, query_start()));
    lemma_trailing(kept, ' ');
    assert(redacted(u) =~= u.text.take(redacted(u).len() as int));
    assert forall|i: int| 0 <= i < redacted(u).len() implies redacted(u)[i] != '?' && redacted(
        u,
    )[i] != '#' by {
        assert(redacted(u)[i] == u.text[i]);
        assert(!query_start()(u.text[i]));
    }
    assert forall|i: int|
        redacted(u).len() <= i < first_at(u.text, query_start()) implies #[trigger] u.text[i]
        == ' ' by {
        assert(kept[i] == u.text[i]);
    }
}

/// Dropping trailing characters leaves a prefix, and drops that character alone.
proof fn lemma_trailing(s: Seq<char>, d: char)
    ensures
        drop_trailing(s, only(d)).len() <= s.len(),
        drop_trailing(s, only(d)) == s.take(drop_trailing(s, only(d)).len() as int),
        forall|i: int| drop_trailing(s, only(d)).len() <= i < s.len() ==> #[trigger] s[i] == d,
    decreases s.len(),
{
    if s.len() > 0 && s.last() == d {
        let t = s.drop_last();
        let k = drop_trailing(t, only(d)).len();
        lemma_trailing(t, d);
        assert(t.take(k as int) =~= s.take(k as int));
        assert forall|i: int| k <= i < s.len() implies #[trigger] s[i] == d by {
            if i < t.len() {
                assert(t[i] == s[i]);
            }
        }
    } else {
        assert(s.take(s.len() as int) =~= s);
    }
}

/// A copy of an optional string.
pub fn copy_opt(s: &Option<String>) -> (r: Option<String>)
    ensures
        r.deep_view() == s.deep_view(),
        r == *s,
{
    match s {
        Some(t) => Some(t.clone()),
        None => None,
    }
}

/// What stands before the query or the fragment is kept as it is.
pub proof fn redacting_keeps_the_rest(u: UrlView, kept: Seq<char>, d: char, rest: Seq<char>)
    requires
        u.text == kept.push(d) + rest,
        d == '?' || d == '#',
        !kept.contains('?'),
        !kept.contains('#'),
        !opaque_path(u),
    ensures
        redacted(u) == kept,
{
    assert forall|i: int| 0 <= i < kept.len() implies !query_start()(#[trigger] kept[i]) by {
        assert(kept.contains(kept[i]));
    }
    the_first_match_ends_the_rest(kept, d, rest, query_start());
    assert(u.text.take(kept.len() as int) =~= kept);
}

/// A URL without a query or a fragment is kept whole.
pub proof fn redacting_keeps_plain_urls(u: UrlView)
    requires
        !u.text.contains('?'),
        !u.text.contains('#'),
        !opaque_path(u),
    ensures
        redacted(u) == u.text,
{
    lemma_first_at(u.text, query_start());
    let i = first_at(u.text, query_start());
    if i < u.text.len() {
        assert(u.text.contains(u.text[i]));
    }
    assert(u.text.take(u.text.len() as int) =~= u.text);
}

} // verus!
