//! Rewriting of watermark markers in a media address.

use vstd::prelude::*;
use crate::text::{chars_of, contains, lemma_occurs_at, lemma_replace_behind_prefix, lemma_replace_copies_run, lemma_replace_keeps_prefix, lemma_replace_shortens, lemma_replace_without_occurrence, occurs_at, replace_all, replace_both_from, replace_chars, replace_from, string_of};

verus! {

/// One pass of the path rule: every watermarked path segment is replaced by
/// the plain one, from the left and without overlap.
pub open spec fn path_pass(url: Seq<char>) -> Seq<char> {
    replace_all(url, "/playwm/"@, "/play/"@)
}

/// The path rule: passes repeated until one finds no watermarked segment,
/// which is when it no longer shortens the address. The slash that closes a
/// replaced segment may open another, which the next pass replaces.
pub open spec fn strip_path_marker(url: Seq<char>) -> Seq<char>
    decreases url.len(),
{
    let once = path_pass(url);
    if once.len() < url.len() {
        strip_path_marker(once)
    } else {
        url
    }
}

/// The query rule: the watermark flag is switched off wherever it stands.
pub open spec fn strip_query_marker(url: Seq<char>) -> Seq<char> {
    replace_all(url, "watermark=1"@, "watermark=0"@)
}

/// The address with both watermark markers rewritten.
pub open spec fn strip_watermark(url: Seq<char>) -> Seq<char> {
    strip_query_marker(strip_path_marker(url))
}

/// The address holds neither watermark marker.
pub open spec fn marker_free(url: Seq<char>) -> bool {
    !contains(url, "/playwm/"@) && !contains(url, "watermark=1"@)
}

/// The characters of the markers and of what replaces them.
pub proof fn lemma_marker_chars()
    ensures
        "/playwm/"@ =~= seq!['/', 'p', 'l', 'a', 'y', 'w', 'm', '/'],
        "/play/"@ =~= seq!['/', 'p', 'l', 'a', 'y', '/'],
        "watermark=1"@ =~= seq!['w', 'a', 't', 'e', 'r', 'm', 'a', 'r', 'k', '=', '1'],
        "watermark=0"@ =~= seq!['w', 'a', 't', 'e', 'r', 'm', 'a', 'r', 'k', '=', '0'],
{
    reveal_strlit("/playwm/");
    reveal_strlit("/play/");
    reveal_strlit("watermark=1");
    reveal_strlit("watermark=0");
}

/// The text from index `i` on with the path marker replaced.
pub open spec fn path_from(s: Seq<char>, i: int) -> Seq<char> {
    replace_from(s, "/playwm/"@, "/play/"@, i)
}

/// The text from index `i` on with the query marker replaced.
pub open spec fn query_from(s: Seq<char>, i: int) -> Seq<char> {
    replace_from(s, "watermark=1"@, "watermark=0"@, i)
}

/// Where what the path rule gives begins with `k` characters that are no
/// slash, it copied them, and goes on behind them as the rule does from there.
pub proof fn lemma_path_copied_prefix(s: Seq<char>, i: int, k: int)
    requires
        0 <= i <= s.len(),
        0 <= k <= path_from(s, i).len(),
        forall|m: int| 0 <= m < k ==> #[trigger] path_from(s, i)[m] != '/',
    ensures
        i + k <= s.len(),
        forall|m: int| 0 <= m < k ==> #[trigger] path_from(s, i)[m] == s[i + m],
        path_from(s, i).skip(k) == path_from(s, i + k),
    decreases k,
{
    let r = path_from(s, i);
    if k == 0 {
        assert(r.skip(0) =~= r);
    } else {
        lemma_marker_chars();
        assert(r[0] != '/');
        assert(i < s.len());
        assert(!occurs_at(s, "/playwm/"@, i)) by {
            if occurs_at(s, "/playwm/"@, i) {
                assert(r[0] == "/play/"@[0]);
            }
        }
        let r1 = path_from(s, i + 1);
        assert(r == seq![s[i]] + r1);
        assert forall|m: int| 0 <= m < k - 1 implies #[trigger] r1[m] != '/' by {
            assert(r1[m] == r[m + 1]);
        }
        lemma_path_copied_prefix(s, i + 1, k - 1);
        assert forall|m: int| 0 <= m < k implies #[trigger] r[m] == s[i + m] by {
            if m > 0 {
                assert(r[m] == r1[m - 1]);
            }
        }
        assert(r.skip(k) =~= r1.skip(k - 1));
    }
}

/// The path rule leaves no watermarked segment, and a further pass or a
/// further application changes nothing.
pub proof fn lemma_path_stripped(url: Seq<char>)
    ensures
        !contains(strip_path_marker(url), "/playwm/"@),
        path_pass(strip_path_marker(url)) == strip_path_marker(url),
        strip_path_marker(strip_path_marker(url)) == strip_path_marker(url),
    decreases url.len(),
{
    lemma_marker_chars();
    let once = path_pass(url);
    lemma_replace_shortens(url, "/playwm/"@, "/play/"@, 0);
    if once.len() < url.len() {
        lemma_path_stripped(once);
    } else {
        lemma_replace_without_occurrence(url, "/playwm/"@, "/play/"@, 0);
        assert(url.subrange(0, url.len() as int) =~= url);
    }
}

/// The query rule keeps the length of the text, and each character of it but
/// where it writes a zero.
pub proof fn lemma_query_keeps(s: Seq<char>, i: int)
    requires
        0 <= i <= s.len(),
    ensures
        query_from(s, i).len() == s.len() - i,
        forall|m: int|
            0 <= m < s.len() - i ==> #[trigger] query_from(s, i)[m] == s[i + m] || query_from(
                s,
                i,
            )[m] == '0',
    decreases s.len() - i,
{
    lemma_marker_chars();
    let r = query_from(s, i);
    let pat = "watermark=1"@;
    if i < s.len() {
        lemma_occurs_at(s, pat, i);
        if occurs_at(s, pat, i) {
            let r1 = query_from(s, i + 11);
            lemma_query_keeps(s, i + 11);
            assert(r == "watermark=0"@ + r1);
            assert forall|m: int| 0 <= m < s.len() - i implies #[trigger] r[m] == s[i + m] || r[m]
                == '0' by {
                if m < 11 {
                    assert(r[m] == "watermark=0"@[m]);
                    assert(s[i + m] == pat[m]);
                } else {
                    assert(r[m] == r1[m - 11]);
                }
            }
        } else {
            let r1 = query_from(s, i + 1);
            lemma_query_keeps(s, i + 1);
            assert(r == seq![s[i]] + r1);
            assert forall|m: int| 0 <= m < s.len() - i implies #[trigger] r[m] == s[i + m] || r[m]
                == '0' by {
                if m > 0 {
                    assert(r[m] == r1[m - 1]);
                }
            }
        }
    }
}

/// The query rule leaves no query marker.
proof fn lemma_query_marker_gone(s: Seq<char>, i: int, j: int)
    requires
        0 <= i <= s.len(),
    ensures
        !occurs_at(query_from(s, i), "watermark=1"@, j),
    decreases s.len() - i,
{
    lemma_marker_chars();
    let r = query_from(s, i);
    let pat = "watermark=1"@;
    lemma_occurs_at(r, pat, j);
    lemma_occurs_at(s, pat, i);
    lemma_query_keeps(s, i);
    if i < s.len() && occurs_at(r, pat, j) {
        assert(r[j + 0] == pat[0] && r[j + 10] == pat[10]);
        if occurs_at(s, pat, i) {
            let r1 = query_from(s, i + 11);
            assert(r == "watermark=0"@ + r1);
            if j >= 11 {
                lemma_query_marker_gone(s, i + 11, j - 11);
                lemma_occurs_at(r1, pat, j - 11);
                assert forall|k: int| 0 <= k < pat.len() implies r1[j - 11 + k] == #[trigger] pat[k] by {
                    assert(r[j + k] == r1[j - 11 + k]);
                }
            } else {
                assert(r[j] == "watermark=0"@[j]);
                assert(r[10] == "watermark=0"@[10]);
                assert(false);
            }
        } else {
            let r1 = query_from(s, i + 1);
            assert(r == seq![s[i]] + r1);
            if j >= 1 {
                lemma_query_marker_gone(s, i + 1, j - 1);
                lemma_occurs_at(r1, pat, j - 1);
                assert forall|k: int| 0 <= k < pat.len() implies r1[j - 1 + k] == #[trigger] pat[k] by {
                    assert(r[j + k] == r1[j - 1 + k]);
                }
            } else {
                assert forall|k: int| 0 <= k < pat.len() implies s[i + k] == #[trigger] pat[k] by {
                    assert(r[k] == pat[k]);
                    assert(r[k] == s[i + k] || r[k] == '0');
                }
                assert(false);
            }
        }
    }
}

/// Stripping is idempotent: the stripped address holds neither marker, and
/// stripping it again changes nothing.
pub proof fn lemma_strip_idempotent(url: Seq<char>)
    ensures
        marker_free(strip_watermark(url)),
        strip_watermark(strip_watermark(url)) == strip_watermark(url),
{
    lemma_marker_chars();
    let p = strip_path_marker(url);
    let v = strip_watermark(url);
    lemma_path_stripped(url);
    lemma_query_keeps(p, 0);
    assert forall|j: int| !occurs_at(v, "/playwm/"@, j) by {
        lemma_occurs_at(v, "/playwm/"@, j);
        lemma_occurs_at(p, "/playwm/"@, j);
        assert(!occurs_at(p, "/playwm/"@, j));
        if occurs_at(v, "/playwm/"@, j) {
            assert forall|k: int| 0 <= k < 8 implies p[j + k] == #[trigger] "/playwm/"@[k] by {
                assert(v[j + k] == "/playwm/"@[k]);
                assert(v[j + k] == p[0 + (j + k)] || v[j + k] == '0');
            }
        }
    }
    assert forall|j: int| !occurs_at(v, "watermark=1"@, j) by {
        lemma_query_marker_gone(p, 0, j);
    }
    lemma_replace_without_occurrence(v, "/playwm/"@, "/play/"@, 0);
    lemma_replace_without_occurrence(v, "watermark=1"@, "watermark=0"@, 0);
    assert(v.subrange(0, v.len() as int) =~= v);
    assert(strip_path_marker(v) == v);
}

/// An address that holds neither marker is kept as it is.
pub proof fn lemma_strip_without_marker(url: Seq<char>)
    requires
        marker_free(url),
    ensures
        strip_watermark(url) == url,
{
    lemma_replace_without_occurrence(url, "/playwm/"@, "/play/"@, 0);
    lemma_replace_without_occurrence(url, "watermark=1"@, "watermark=0"@, 0);
    assert(url.subrange(0, url.len() as int) =~= url);
    assert(strip_path_marker(url) == url);
}

/// The text from index `i` on with both markers rewritten in one pass.
pub open spec fn both_from(s: Seq<char>, i: int) -> Seq<char> {
    replace_both_from(s, ("/playwm/"@, "/play/"@), ("watermark=1"@, "watermark=0"@), i)
}

/// The query rule after one pass of the path rule gives what one pass with
/// both gives.
pub proof fn lemma_query_after_path(s: Seq<char>, i: int)
    requires
        0 <= i <= s.len(),
    ensures
        strip_query_marker(path_from(s, i)) == both_from(s, i),
    decreases s.len() - i,
{
    lemma_marker_chars();
    let r = path_from(s, i);
    let pw = "/playwm/"@;
    let wm = "watermark=1"@;
    let wm0 = "watermark=0"@;
    if i < s.len() {
        lemma_occurs_at(s, pw, i);
        lemma_occurs_at(s, wm, i);
        if occurs_at(s, pw, i) {
            let r1 = path_from(s, i + 8);
            lemma_query_after_path(s, i + 8);
            assert forall|j: int| 0 <= j < 6 implies !occurs_at("/play/"@ + r1, wm, j) by {
                lemma_occurs_at("/play/"@ + r1, wm, j);
                assert(wm[0] == 'w');
                assert(("/play/"@ + r1)[j + 0] == "/play/"@[j]);
            }
            lemma_replace_keeps_prefix("/play/"@, r1, wm, wm0, 0);
            assert("/play/"@.subrange(0, 6) =~= "/play/"@);
        } else if occurs_at(s, wm, i) {
            let r1 = path_from(s, i + 11);
            lemma_query_after_path(s, i + 11);
            assert forall|j: int| i <= j < i + 11 implies !occurs_at(s, pw, j) by {
                lemma_occurs_at(s, pw, j);
                assert(pw[0] == '/');
                assert(s[i + (j - i)] == wm[j - i]);
            }
            lemma_replace_copies_run(s, pw, "/play/"@, i, 11);
            assert(s.subrange(i, i + 11) == wm);
            assert(r == wm + r1);
            assert((wm + r1).subrange(0, 11) =~= wm);
            lemma_replace_behind_prefix(wm, r1, wm, wm0, 0);
        } else {
            let r1 = path_from(s, i + 1);
            lemma_query_after_path(s, i + 1);
            assert(r == seq![s[i]] + r1);
            lemma_occurs_at(r, wm, 0);
            if occurs_at(r, wm, 0) {
                assert forall|m: int| 0 <= m < 11 implies #[trigger] r[m] != '/' by {
                    assert(r[0 + m] == wm[m]);
                }
                lemma_path_copied_prefix(s, i, 11);
                assert forall|k: int| 0 <= k < 11 implies s[i + k] == #[trigger] wm[k] by {
                    assert(r[0 + k] == wm[k]);
                    assert(r[k] == s[i + k]);
                }
                assert(false);
            }
            lemma_replace_behind_prefix(seq![s[i]], r1, wm, wm0, 0);
        }
    }
}

/// One pass of the path rule after the query rule gives what one pass with
/// both gives.
proof fn lemma_path_after_query(s: Seq<char>, i: int)
    requires
        0 <= i <= s.len(),
    ensures
        path_pass(query_from(s, i)) == both_from(s, i),
    decreases s.len() - i,
{
    lemma_marker_chars();
    let r = query_from(s, i);
    let pw = "/playwm/"@;
    let wm = "watermark=1"@;
    let wm0 = "watermark=0"@;
    if i < s.len() {
        lemma_occurs_at(s, pw, i);
        lemma_occurs_at(s, wm, i);
        if occurs_at(s, pw, i) {
            let r1 = query_from(s, i + 8);
            lemma_path_after_query(s, i + 8);
            assert forall|j: int| i <= j < i + 8 implies !occurs_at(s, wm, j) by {
                lemma_occurs_at(s, wm, j);
                assert(wm[0] == 'w' && wm[1] == 'a');
                assert(s[i + (j - i)] == pw[j - i]);
                if j == i + 5 {
                    assert(s[i + 6] == pw[6]);
                }
            }
            lemma_replace_copies_run(s, wm, wm0, i, 8);
            assert(s.subrange(i, i + 8) == pw);
            assert(r == pw + r1);
            assert((pw + r1).subrange(0, 8) =~= pw);
            lemma_replace_behind_prefix(pw, r1, pw, "/play/"@, 0);
        } else if occurs_at(s, wm, i) {
            let r1 = query_from(s, i + 11);
            lemma_path_after_query(s, i + 11);
            assert forall|j: int| 0 <= j < 11 implies !occurs_at(wm0 + r1, pw, j) by {
                lemma_occurs_at(wm0 + r1, pw, j);
                assert(pw[0] == '/');
                assert((wm0 + r1)[j + 0] == wm0[j]);
            }
            lemma_replace_keeps_prefix(wm0, r1, pw, "/play/"@, 0);
            assert(wm0.subrange(0, 11) =~= wm0);
        } else {
            let r1 = query_from(s, i + 1);
            lemma_path_after_query(s, i + 1);
            assert(r == seq![s[i]] + r1);
            lemma_occurs_at(r, pw, 0);
            if occurs_at(r, pw, 0) {
                lemma_query_keeps(s, i);
                assert forall|k: int| 0 <= k < 8 implies s[i + k] == #[trigger] pw[k] by {
                    assert(r[0 + k] == pw[k]);
                    assert(r[k] == s[i + k] || r[k] == '0');
                }
                assert(false);
            }
            lemma_replace_behind_prefix(seq![s[i]], r1, pw, "/play/"@, 0);
        }
    }
}

/// The two rules may be applied in either order: the result is the same.
pub proof fn lemma_strip_order_independent(url: Seq<char>)
    ensures
        strip_query_marker(strip_path_marker(url)) == strip_path_marker(strip_query_marker(url)),
    decreases url.len(),
{
    let once = path_pass(url);
    lemma_query_after_path(url, 0);
    lemma_path_after_query(url, 0);
    lemma_query_keeps(url, 0);
    lemma_query_keeps(once, 0);
    assert(path_pass(strip_query_marker(url)) == strip_query_marker(once));
    if once.len() < url.len() {
        lemma_strip_order_independent(once);
    }
}

/// Applies the path rule: passes are repeated until one finds nothing to
/// replace.
pub fn remove_path_marker(url: &Vec<char>) -> (r: Vec<char>)
    ensures
        r@ == strip_path_marker(url@),
{
    let from = chars_of("/playwm/");
    let to = chars_of("/play/");
    let mut seen: usize = url.len();
    let mut cur = replace_chars(url, &from, &to);
    let ghost mut prev = url@;
    while cur.len() < seen
        invariant
            from@ == "/playwm/"@,
            to@ == "/play/"@,
            seen == prev.len(),
            cur@ == path_pass(prev),
            strip_path_marker(prev) == strip_path_marker(url@),
        decreases seen,
    {
        proof {
            prev = cur@;
        }
        seen = cur.len();
        cur = replace_chars(&cur, &from, &to);
    }
    proof {
        lemma_marker_chars();
        lemma_replace_shortens(prev, "/playwm/"@, "/play/"@, 0);
        lemma_replace_without_occurrence(prev, "/playwm/"@, "/play/"@, 0);
        assert(prev.subrange(0, prev.len() as int) =~= prev);
    }
    cur
}

/// Rewrites `/playwm/` to `/play/` and `watermark=1` to `watermark=0`
/// wherever they stand in the address. The result holds neither marker, and
/// rewriting it again changes nothing.
pub fn remove_watermark_chars(url: &Vec<char>) -> (r: Vec<char>)
    ensures
        r@ == strip_watermark(url@),
        marker_free(r@),
        strip_watermark(r@) == r@,
{
    let query_from = chars_of("watermark=1");
    let query_to = chars_of("watermark=0");
    let without_path = remove_path_marker(url);
    proof {
        lemma_strip_idempotent(url@);
    }
    replace_chars(&without_path, &query_from, &query_to)
}

/// Returns the watermark-free form of a media address. The result holds
/// neither marker, and stripping it again changes nothing.
pub fn remove_watermark_from_url(url: &str) -> (r: String)
    ensures
        r@ == strip_watermark(url@),
        marker_free(r@),
        strip_watermark(r@) == r@,
{
    let chars = chars_of(url);
    let stripped = remove_watermark_chars(&chars);
    string_of(&stripped)
}

} // verus!
