//! Text normalization: first every URL span is removed, then every literal
//! occurrence of each hashtag, written `#` + tag. The order matters: a
//! hashtag embedded in a URL's query string disappears with the URL and is
//! never half-corrupted by hashtag removal.
//!
//! A URL span is a scheme prefix, `http://` or `https://`, whose host — the
//! URL characters before the first `/` — is non-empty and holds a dot,
//! followed by the longest run of URL characters after the scheme. A bare
//! scheme or a dotless host is ordinary text. Text is handled as a
//! sequence of characters throughout.

use vstd::prelude::*;

verus! {

broadcast use vstd::seq_lib::group_seq_properties;

/// Characters that may continue a URL after its scheme: letters, digits,
/// and the host/path/query punctuation of a standard URL.
pub open spec fn is_url_char(c: char) -> bool {
    ('a' <= c && c <= 'z') || ('A' <= c && c <= 'Z') || ('0' <= c && c <= '9') || c == '-' || c
        == '@' || c == ':' || c == '%' || c == '.' || c == '_' || c == '+' || c == '~' || c == '#'
        || c == '=' || c == '?' || c == '&' || c == '/' || c == '(' || c == ')'
}

/// `http://` starts at position `i`.
pub open spec fn http_at(s: Seq<char>, i: int) -> bool {
    &&& 0 <= i
    &&& i + 7 <= s.len()
    &&& s[i] == 'h'
    &&& s[i + 1] == 't'
    &&& s[i + 2] == 't'
    &&& s[i + 3] == 'p'
    &&& s[i + 4] == ':'
    &&& s[i + 5] == '/'
    &&& s[i + 6] == '/'
}

/// `https://` starts at position `i`.
pub open spec fn https_at(s: Seq<char>, i: int) -> bool {
    &&& 0 <= i
    &&& i + 8 <= s.len()
    &&& s[i] == 'h'
    &&& s[i + 1] == 't'
    &&& s[i + 2] == 't'
    &&& s[i + 3] == 'p'
    &&& s[i + 4] == 's'
    &&& s[i + 5] == ':'
    &&& s[i + 6] == '/'
    &&& s[i + 7] == '/'
}

/// Where the host segment beginning at `j` ends: the first position at or
/// after `j` holding `/` or a character no URL may contain.
pub open spec fn host_end(s: Seq<char>, j: int) -> int
    decreases s.len() - j when 0 <= j <= s.len()
{
    if j < s.len() && is_url_char(s[j]) && s[j] != '/' {
        host_end(s, j + 1)
    } else {
        j
    }
}

/// The segment at `j` is a real host: non-empty up to the first `/`, with
/// a dot in it.
pub open spec fn dotted_host(s: Seq<char>, j: int) -> bool {
    j < host_end(s, j) && (exists|d: int| j <= d < host_end(s, j) && s[d] == '.')
}

/// A URL span starts at `i`: a scheme followed by a dotted host.
pub open spec fn url_span_starts_at(s: Seq<char>, i: int) -> bool {
    (https_at(s, i) && dotted_host(s, i + 8)) || (http_at(s, i) && dotted_host(s, i + 7))
}

/// One left-to-right pass from position `i`. A scheme with a dotted host
/// starts a URL run; while a run is open, URL characters are dropped; the
/// first character that neither starts a span nor continues an open run
/// closes the run and is kept.
pub open spec fn strip_step(s: Seq<char>, i: int, in_run: bool) -> Seq<char>
    decreases s.len() - i when 0 <= i <= s.len()
{
    if i >= s.len() {
        Seq::empty()
    } else if https_at(s, i) && dotted_host(s, i + 8) {
        strip_step(s, i + 8, true)
    } else if http_at(s, i) && dotted_host(s, i + 7) {
        strip_step(s, i + 7, true)
    } else if in_run && is_url_char(s[i]) {
        strip_step(s, i + 1, true)
    } else {
        seq![s[i]] + strip_step(s, i + 1, false)
    }
}

/// The text with every URL span removed.
pub open spec fn strip_urls(s: Seq<char>) -> Seq<char> {
    strip_step(s, 0, false)
}

/// The literal pattern `p` occurs at position `i` of `s`.
pub open spec fn pat_at(s: Seq<char>, i: int, p: Seq<char>) -> bool {
    &&& 0 <= i
    &&& i + p.len() <= s.len()
    &&& s.subrange(i, i + p.len() as int) == p
}

/// Left-to-right removal of every occurrence of `p` from position `i` on;
/// an occurrence is skipped whole, so overlapping occurrences are consumed
/// left-to-right.
pub open spec fn remove_from(s: Seq<char>, p: Seq<char>, i: int) -> Seq<char>
    decreases s.len() - i when 0 <= i <= s.len() && 0 < p.len()
{
    if i >= s.len() {
        Seq::empty()
    } else if pat_at(s, i, p) {
        remove_from(s, p, i + p.len() as int)
    } else {
        seq![s[i]] + remove_from(s, p, i + 1)
    }
}

/// The text with every occurrence of `p` removed; removing the empty
/// pattern changes nothing.
pub open spec fn remove_all(s: Seq<char>, p: Seq<char>) -> Seq<char> {
    if p.len() == 0 {
        s
    } else {
        remove_from(s, p, 0)
    }
}

/// The tag rendered as a literal hashtag occurrence.
pub open spec fn hashtag_of(tag: Seq<char>) -> Seq<char> {
    seq!['#'] + tag
}

/// Removes the rendered hashtags one tag after the other, in list order.
pub open spec fn remove_tags(s: Seq<char>, tags: Seq<Seq<char>>) -> Seq<char>
    decreases tags.len(),
{
    if tags.len() == 0 {
        s
    } else {
        remove_tags(remove_all(s, hashtag_of(tags[0])), tags.skip(1))
    }
}

/// The views of a list of character vectors.
pub open spec fn views_of(ts: Seq<Vec<char>>) -> Seq<Seq<char>> {
    ts.map_values(|t: Vec<char>| t@)
}

/// Normalized text: URL spans removed first, then every hashtag occurrence.
pub open spec fn normalize_spec(s: Seq<char>, tags: Seq<Seq<char>>) -> Seq<char> {
    remove_tags(strip_urls(s), tags)
}

/// Copies a character vector.
pub fn copy_chars(v: &Vec<char>) -> (r: Vec<char>)
    ensures
        r@ == v@,
{
    let mut r: Vec<char> = Vec::new();
    let mut i: usize = 0;
    while i < v.len()
        invariant
            i <= v@.len(),
            r@ == v@.take(i as int),
        decreases v@.len() - i,
    {
        r.push(v[i]);
        proof {
            assert(v@.take(i as int + 1) =~= v@.take(i as int).push(v@[i as int]));
        }
        i = i + 1;
    }
    proof {
        assert(v@.take(v@.len() as int) =~= v@);
    }
    r
}

/// Character-wise equality of two vectors.
pub fn chars_eq(a: &Vec<char>, b: &Vec<char>) -> (r: bool)
    ensures
        r == (a@ == b@),
{
    if a.len() != b.len() {
        return false;
    }
    let mut i: usize = 0;
    while i < a.len()
        invariant
            a@.len() == b@.len(),
            i <= a@.len(),
            forall|k: int| 0 <= k < i ==> a@[k] == b@[k],
        decreases a@.len() - i,
    {
        if a[i] != b[i] {
            return false;
        }
        i = i + 1;
    }
    proof {
        assert(a@ =~= b@);
    }
    true
}

/// `http://` starts at position `i` of `v`.
fn http_at_exec(v: &Vec<char>, i: usize) -> (r: bool)
    requires
        i <= v@.len(),
    ensures
        r == http_at(v@, i as int),
{
    v.len() - i >= 7 && v[i] == 'h' && v[i + 1] == 't' && v[i + 2] == 't' && v[i + 3] == 'p'
        && v[i + 4] == ':' && v[i + 5] == '/' && v[i + 6] == '/'
}

/// `https://` starts at position `i` of `v`.
fn https_at_exec(v: &Vec<char>, i: usize) -> (r: bool)
    requires
        i <= v@.len(),
    ensures
        r == https_at(v@, i as int),
{
    v.len() - i >= 8 && v[i] == 'h' && v[i + 1] == 't' && v[i + 2] == 't' && v[i + 3] == 'p'
        && v[i + 4] == 's' && v[i + 5] == ':' && v[i + 6] == '/' && v[i + 7] == '/'
}

/// Decides `is_url_char`.
fn is_url_char_exec(c: char) -> (r: bool)
    ensures
        r == is_url_char(c),
{
    ('a' <= c && c <= 'z') || ('A' <= c && c <= 'Z') || ('0' <= c && c <= '9') || c == '-' || c
        == '@' || c == ':' || c == '%' || c == '.' || c == '_' || c == '+' || c == '~' || c == '#'
        || c == '=' || c == '?' || c == '&' || c == '/' || c == '(' || c == ')'
}

/// Whether the segment at `j` is a non-empty dotted host.
fn dotted_host_exec(v: &Vec<char>, j: usize) -> (r: bool)
    requires
        j <= v@.len(),
    ensures
        r == dotted_host(v@, j as int),
{
    let mut k: usize = j;
    let mut dot: bool = false;
    while k < v.len() && is_url_char_exec(v[k]) && v[k] != '/'
        invariant
            j <= k <= v@.len(),
            host_end(v@, j as int) == host_end(v@, k as int),
            dot == (exists|d: int| j <= d < k && v@[d] == '.'),
        decreases v@.len() - k,
    {
        proof {
            assert(host_end(v@, k as int) == host_end(v@, k as int + 1));
            if v@[k as int] == '.' {
                assert(j <= k < k + 1 && v@[k as int] == '.');
            } else {
                assert forall|d: int| j <= d < k + 1 && v@[d] == '.' implies j <= d < k by {}
            }
        }
        if v[k] == '.' {
            dot = true;
        }
        k = k + 1;
    }
    proof {
        assert(host_end(v@, k as int) == k as int);
    }
    dot && k > j
}

/// Removes every URL span from the text.
pub fn strip_urls_text(v: &Vec<char>) -> (r: Vec<char>)
    ensures
        r@ == strip_urls(v@),
{
    let mut out: Vec<char> = Vec::new();
    let mut in_run: bool = false;
    let mut i: usize = 0;
    while i < v.len()
        invariant
            i <= v@.len(),
            strip_urls(v@) == out@ + strip_step(v@, i as int, in_run),
        decreases v@.len() - i,
    {
        if https_at_exec(v, i) && dotted_host_exec(v, i + 8) {
            i = i + 8;
            in_run = true;
        } else if http_at_exec(v, i) && dotted_host_exec(v, i + 7) {
            i = i + 7;
            in_run = true;
        } else if in_run && is_url_char_exec(v[i]) {
            i = i + 1;
        } else {
            proof {
                assert(out@.push(v@[i as int]) + strip_step(v@, i as int + 1, false) =~= out@ + (
                seq![v@[i as int]] + strip_step(v@, i as int + 1, false)));
            }
            out.push(v[i]);
            in_run = false;
            i = i + 1;
        }
    }
    proof {
        assert(out@ + strip_step(v@, v@.len() as int, in_run) =~= out@);
    }
    out
}

/// The literal pattern `p` occurs at position `i` of `v`.
fn pat_at_exec(v: &Vec<char>, i: usize, p: &Vec<char>) -> (r: bool)
    requires
        i <= v@.len(),
    ensures
        r == pat_at(v@, i as int, p@),
{
    if v.len() - i < p.len() {
        return false;
    }
    let mut j: usize = 0;
    while j < p.len()
        invariant
            i + p@.len() <= v@.len(),
            v@.len() <= usize::MAX,
            j <= p@.len(),
            forall|k: int| 0 <= k < j ==> v@[i + k] == p@[k],
        decreases p@.len() - j,
    {
        proof {
            assert(i + j < v@.len());
        }
        if v[i + j] != p[j] {
            proof {
                if pat_at(v@, i as int, p@) {
                    assert(v@.subrange(i as int, i + p@.len() as int)[j as int] == p@[j as int]);
                }
            }
            return false;
        }
        j = j + 1;
    }
    proof {
        assert(v@.subrange(i as int, i + p@.len() as int) =~= p@);
    }
    true
}

/// Removes every occurrence of `p` from `v`, scanning left to right.
pub fn remove_all_text(v: &Vec<char>, p: &Vec<char>) -> (r: Vec<char>)
    ensures
        r@ == remove_all(v@, p@),
{
    let mut out: Vec<char> = Vec::new();
    let mut i: usize = 0;
    if p.len() == 0 {
        while i < v.len()
            invariant
                i <= v@.len(),
                out@ == v@.take(i as int),
            decreases v@.len() - i,
        {
            out.push(v[i]);
            proof {
                assert(v@.take(i as int + 1) =~= v@.take(i as int).push(v@[i as int]));
            }
            i = i + 1;
        }
        proof {
            assert(v@.take(v@.len() as int) =~= v@);
        }
        return out;
    }
    while i < v.len()
        invariant
            i <= v@.len(),
            p@.len() > 0,
            remove_all(v@, p@) == out@ + remove_from(v@, p@, i as int),
        decreases v@.len() - i,
    {
        if pat_at_exec(v, i, p) {
            i = i + p.len();
        } else {
            proof {
                assert(out@.push(v@[i as int]) + remove_from(v@, p@, i as int + 1) =~= out@ + (
                seq![v@[i as int]] + remove_from(v@, p@, i as int + 1)));
            }
            out.push(v[i]);
            i = i + 1;
        }
    }
    proof {
        assert(out@ + remove_from(v@, p@, v@.len() as int) =~= out@);
    }
    out
}

/// Renders a tag as the literal pattern `#` + tag.
pub fn hashtag_pattern(tag: &Vec<char>) -> (p: Vec<char>)
    ensures
        p@ == hashtag_of(tag@),
{
    let mut p: Vec<char> = Vec::new();
    p.push('#');
    let mut i: usize = 0;
    while i < tag.len()
        invariant
            i <= tag@.len(),
            p@ == seq!['#'] + tag@.take(i as int),
        decreases tag@.len() - i,
    {
        p.push(tag[i]);
        proof {
            assert(tag@.take(i as int + 1) =~= tag@.take(i as int).push(tag@[i as int]));
            assert((seq!['#'] + tag@.take(i as int)).push(tag@[i as int]) =~= seq!['#']
                + tag@.take(i as int + 1));
        }
        i = i + 1;
    }
    proof {
        assert(tag@.take(tag@.len() as int) =~= tag@);
        assert(p@ =~= hashtag_of(tag@));
    }
    p
}

/// Normalizes a post's text: URL spans go first, then every literal
/// occurrence of each listed hashtag.
pub fn normalize_text(text: &Vec<char>, hashtags: &Vec<Vec<char>>) -> (r: Vec<char>)
    ensures
        r@ == normalize_spec(text@, views_of(hashtags@)),
{
    let ghost tgs = views_of(hashtags@);
    let mut cur = strip_urls_text(text);
    proof {
        assert(tgs.skip(0) =~= tgs);
    }
    let mut k: usize = 0;
    while k < hashtags.len()
        invariant
            k <= hashtags@.len(),
            tgs == views_of(hashtags@),
            remove_tags(cur@, tgs.skip(k as int)) == normalize_spec(text@, tgs),
        decreases hashtags@.len() - k,
    {
        let p = hashtag_pattern(&hashtags[k]);
        proof {
            assert(tgs.skip(k as int)[0] == tgs[k as int]);
            assert(tgs.skip(k as int).skip(1) =~= tgs.skip(k as int + 1));
        }
        cur = remove_all_text(&cur, &p);
        k = k + 1;
    }
    proof {
        assert(tgs.skip(hashtags@.len() as int) =~= Seq::<Seq<char>>::empty());
    }
    cur
}

/// A text is clean when no URL span and no rendered hashtag occurs in it.
/// Normalizing a clean text is a no-op; removal can splice new occurrences
/// together, so normalized text is not always clean.
pub open spec fn normal_clean(s: Seq<char>, tags: Seq<Seq<char>>) -> bool {
    &&& forall|j: int| !url_span_starts_at(s, j)
    &&& forall|k: int, j: int| 0 <= k < tags.len() ==> !pat_at(s, j, hashtag_of(tags[k]))
}

/// Without a URL span anywhere, the stripping pass keeps every character.
proof fn lemma_strip_step_identity(s: Seq<char>, i: int)
    requires
        0 <= i <= s.len(),
        forall|j: int| !url_span_starts_at(s, j),
    ensures
        strip_step(s, i, false) == s.skip(i),
    decreases s.len() - i,
{
    if i >= s.len() {
        assert(s.skip(i) =~= Seq::<char>::empty());
    } else {
        assert(!url_span_starts_at(s, i));
        lemma_strip_step_identity(s, i + 1);
        assert(seq![s[i]] + s.skip(i + 1) =~= s.skip(i));
    }
}

/// Without an occurrence of `p` anywhere, removal keeps every character.
proof fn lemma_remove_from_identity(s: Seq<char>, p: Seq<char>, i: int)
    requires
        0 <= i <= s.len(),
        0 < p.len(),
        forall|j: int| !pat_at(s, j, p),
    ensures
        remove_from(s, p, i) == s.skip(i),
    decreases s.len() - i,
{
    if i >= s.len() {
        assert(s.skip(i) =~= Seq::<char>::empty());
    } else {
        lemma_remove_from_identity(s, p, i + 1);
        assert(seq![s[i]] + s.skip(i + 1) =~= s.skip(i));
    }
}

/// Removing hashtags that occur nowhere in `s` changes nothing.
proof fn lemma_remove_tags_identity(s: Seq<char>, tags: Seq<Seq<char>>)
    requires
        forall|k: int, j: int| 0 <= k < tags.len() ==> !pat_at(s, j, hashtag_of(tags[k])),
    ensures
        remove_tags(s, tags) == s,
    decreases tags.len(),
{
    if tags.len() > 0 {
        assert(hashtag_of(tags[0]).len() > 0);
        lemma_remove_from_identity(s, hashtag_of(tags[0]), 0);
        assert(s.skip(0) =~= s);
        assert forall|k: int, j: int|
            0 <= k < tags.skip(1).len() implies !pat_at(s, j, hashtag_of(tags.skip(1)[k])) by {
            assert(tags.skip(1)[k] == tags[k + 1]);
            assert(!pat_at(s, j, hashtag_of(tags[k + 1])));
        }
        lemma_remove_tags_identity(s, tags.skip(1));
    }
}

/// Normalizing is a no-op on clean text.
pub proof fn lemma_normalize_clean_identity(s: Seq<char>, tags: Seq<Seq<char>>)
    requires
        normal_clean(s, tags),
    ensures
        normalize_spec(s, tags) == s,
{
    lemma_strip_step_identity(s, 0);
    assert(s.skip(0) =~= s);
    lemma_remove_tags_identity(s, tags);
}

/// Normalization is idempotent on every input whose normal form is clean.
/// Removal can splice two halves of a scheme or of a hashtag together, so
/// a normal form need not be clean; on such inputs a second pass removes
/// more, and the law is stated for the clean case only.
pub proof fn lemma_normalize_idempotent(x: Seq<char>, tags: Seq<Seq<char>>)
    requires
        normal_clean(normalize_spec(x, tags), tags),
    ensures
        normalize_spec(normalize_spec(x, tags), tags) == normalize_spec(x, tags),
{
    lemma_normalize_clean_identity(normalize_spec(x, tags), tags);
}

} // verus!
