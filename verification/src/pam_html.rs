//! Finding the animation data in an HTML page: the JSON object that a
//! `<script>` assigns with `const pamData = `, up to its balancing brace.
use vstd::prelude::*;

verus! {

/// The bytes of `const pamData = `.
pub open spec fn pam_marker() -> Seq<u8> {
    seq![99u8, 111, 110, 115, 116, 32, 112, 97, 109, 68, 97, 116, 97, 32, 61, 32]
}

/// The first position at or after `i` where `b` holds the marker.
pub open spec fn marker_from(b: Seq<u8>, i: int) -> Option<int>
    decreases b.len() - i,
{
    if i < 0 || i + 16 > b.len() {
        None
    } else if b.subrange(i, i + 16) == pam_marker() {
        Some(i)
    } else {
        marker_from(b, i + 1)
    }
}

/// Scanning from `j` with `depth` open braces (`found` once one was seen):
/// the position just past the brace that brings the depth back to zero.
pub open spec fn brace_end(b: Seq<u8>, j: int, depth: int, found: bool) -> Option<int>
    decreases b.len() - j,
{
    if j < 0 || j >= b.len() {
        None
    } else if b[j] == 123u8 {
        brace_end(b, j + 1, depth + 1, true)
    } else if b[j] == 125u8 {
        if found && depth - 1 == 0 { Some(j + 1) } else { brace_end(b, j + 1, depth - 1, found) }
    } else {
        brace_end(b, j + 1, depth, found)
    }
}

/// Where the JSON object stands in the script `b`: from just after the
/// first marker to just past its balancing closing brace.
pub open spec fn json_span(b: Seq<u8>) -> Option<(int, int)> {
    match marker_from(b, 0) {
        None => None,
        Some(i) => match brace_end(b, i + 16, 0, false) {
            Some(e) => Some((i + 16, e)),
            None => None,
        },
    }
}

proof fn lemma_json_span(b: Seq<u8>, i: int, e: int)
    requires
        marker_from(b, 0) == Some(i),
        brace_end(b, i + 16, 0, false) == Some(e),
    ensures
        json_span(b) == Some((i + 16, e)),
{
}

fn marker_at(b: &[u8], i: usize) -> (r: bool)
    requires
        i + 16 <= b@.len(),
    ensures
        r == (b@.subrange(i as int, i + 16) == pam_marker()),
{
    let m: [u8; 16] = [99, 111, 110, 115, 116, 32, 112, 97, 109, 68, 97, 116, 97, 32, 61, 32];
    assert(m@ == pam_marker());
    let _len = b.len();
    let mut k: usize = 0;
    while k < 16
        invariant
            k <= 16,
            i + 16 <= b@.len(),
            b@.len() <= usize::MAX,
            m@ == pam_marker(),
            forall|t: int| 0 <= t < k ==> b@[i + t] == m@[t],
        decreases 16 - k,
    {
        if b[i + k] != m[k] {
            assert(b@.subrange(i as int, i + 16)[k as int] != pam_marker()[k as int]);
            return false;
        }
        k = k + 1;
    }
    assert(b@.subrange(i as int, i + 16) =~= pam_marker());
    true
}

/// The first position of the marker in `b`.
fn find_marker(b: &[u8]) -> (r: Option<usize>)
    ensures
        r is None <==> marker_from(b@, 0) is None,
        r matches Some(i) ==> marker_from(b@, 0) == Some(i as int) && i + 16 <= b@.len(),
{
    let len = b.len();
    if len < 16 {
        return None;
    }
    let mut i: usize = 0;
    while i <= len - 16
        invariant
            len == b@.len(),
            len >= 16,
            marker_from(b@, 0) == marker_from(b@, i as int),
        decreases len - i,
    {
        if marker_at(b, i) {
            return Some(i);
        }
        i = i + 1;
    }
    assert(marker_from(b@, i as int) is None);
    None
}

/// The byte range of the animation's JSON object in the text (as UTF-8
/// bytes) of a script (see `json_span`), or none when the script holds no
/// such object. Both ends fall next to ASCII bytes, so they are character
/// boundaries of the text.
pub fn pam_json_span(script: &[u8]) -> (r: Option<(usize, usize)>)
    ensures
        r is None <==> json_span(script@) is None,
        r matches Some((s, e)) ==> json_span(script@) == Some((s as int, e as int)),
{
    let b = script;
    let len = b.len();
    let i = match find_marker(b) {
        None => return None,
        Some(i) => i,
    };
    let start = i + 16;
    assert(marker_from(b@, 0) == Some(i as int));
    let mut j: usize = start;
    let mut depth: i128 = 0;
    let mut found = false;
    while j < len
        invariant
            start <= j <= len,
            b@ == script@,
            len == b@.len(),
            start == i + 16,
            marker_from(b@, 0) == Some(i as int),
            -(j - start) <= depth <= j - start,
            len <= usize::MAX,
            brace_end(b@, start as int, 0, false) == brace_end(b@, j as int, depth as int, found),
        decreases len - j,
    {
        if b[j] == 123u8 {
            depth = depth + 1;
            found = true;
        } else if b[j] == 125u8 {
            let ghost before = depth;
            depth = depth - 1;
            if found && depth == 0 {
                assert(brace_end(b@, j as int, before as int, found) == Some((j + 1) as int));
                assert(brace_end(b@, (i + 16) as int, 0, false) == Some((j + 1) as int));
                proof { lemma_json_span(b@, i as int, (j + 1) as int); }
                return Some((start, j + 1));
            }
        }
        j = j + 1;
    }
    None
}

// ─── Pages ──────────────────────────────────────────────────────────────────

/// The texts of the `<script>` elements of an HTML page, in document
/// order, as `scraper` parses the page (each as the UTF-8 bytes of its
/// inner HTML).
pub uninterp spec fn html_script_texts(html: Seq<char>) -> Seq<Seq<u8>>;

/// `scraper::Html::parse_document` on the page, then `inner_html` of each
/// element that `Selector::parse("script")` selects, in document order, as
/// UTF-8 bytes: the contract claims that these are the named texts of the
/// page (the selector always parses; were it refused, no text would come
/// back).
#[verifier::external_body]
fn script_texts(html: &str) -> (ts: Vec<Vec<u8>>)
    ensures
        ts@.map_values(|t: Vec<u8>| t@) == html_script_texts(html@),
{
    let document = scraper::Html::parse_document(html);
    match scraper::Selector::parse("script") {
        Ok(selector) => document.select(&selector).map(|e| e.inner_html().into_bytes()).collect(),
        Err(_) => Vec::new(),
    }
}

/// The JSON object of the first script text that holds one.
pub open spec fn first_json(ts: Seq<Seq<u8>>) -> Option<Seq<u8>>
    decreases ts.len(),
{
    if ts.len() == 0 {
        None
    } else {
        match json_span(ts[0]) {
            Some((s, e)) => Some(ts[0].subrange(s, e)),
            None => first_json(ts.drop_first()),
        }
    }
}

/// Where a brace scan ends, it ends past where it started, within the bytes.
proof fn lemma_brace_end_range(b: Seq<u8>, j: int, depth: int, found: bool)
    ensures
        brace_end(b, j, depth, found) matches Some(e) ==> j < e <= b.len(),
    decreases b.len() - j,
{
    if 0 <= j < b.len() {
        if b[j] == 123u8 {
            lemma_brace_end_range(b, j + 1, depth + 1, true);
        } else if b[j] == 125u8 {
            if !(found && depth - 1 == 0) {
                lemma_brace_end_range(b, j + 1, depth - 1, found);
            }
        } else {
            lemma_brace_end_range(b, j + 1, depth, found);
        }
    }
}

proof fn lemma_marker_range(b: Seq<u8>, i: int)
    ensures
        marker_from(b, i) matches Some(k) ==> 0 <= k && k + 16 <= b.len(),
    decreases b.len() - i,
{
    if 0 <= i && i + 16 <= b.len() && b.subrange(i, i + 16) != pam_marker() {
        lemma_marker_range(b, i + 1);
    }
}

/// The animation's JSON object among script texts: the span (see
/// `json_span`) in the first text that holds one, as bytes of that text.
pub fn pam_json_in_scripts(ts: &Vec<Vec<u8>>) -> (r: Option<Vec<u8>>)
    ensures
        r is None <==> first_json(ts@.map_values(|t: Vec<u8>| t@)) is None,
        r matches Some(j) ==> first_json(ts@.map_values(|t: Vec<u8>| t@)) == Some(j@),
{
    let ghost all = ts@.map_values(|t: Vec<u8>| t@);
    let mut i: usize = 0;
    assert(all.skip(0) =~= all);
    while i < ts.len()
        invariant
            i <= ts@.len(),
            all == ts@.map_values(|t: Vec<u8>| t@),
            first_json(all) == first_json(all.skip(i as int)),
        decreases ts@.len() - i,
    {
        let t = ts[i].as_slice();
        assert(all.skip(i as int)[0] == t@);
        assert(all.skip(i as int).drop_first() =~= all.skip(i + 1));
        match pam_json_span(t) {
            Some((s, e)) => {
                proof {
                    lemma_marker_range(t@, 0);
                    lemma_brace_end_range(t@, s as int, 0, false);
                }
                let j = vstd::slice::slice_to_vec(vstd::slice::slice_subrange(t, s, e));
                return Some(j);
            },
            None => {},
        }
        i = i + 1;
    }
    assert(all.skip(i as int).len() == 0);
    None
}

/// The animation's JSON object in an HTML page: the span (see `json_span`)
/// in the first `<script>` whose text holds one, as bytes of that text.
pub fn pam_json_in_html(html: &str) -> (r: Option<Vec<u8>>)
    ensures
        r is None <==> first_json(html_script_texts(html@)) is None,
        r matches Some(j) ==> first_json(html_script_texts(html@)) == Some(j@),
{
    let ts = script_texts(html);
    pam_json_in_scripts(&ts)
}

} // verus!
