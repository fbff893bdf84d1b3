//! Bringing a captured media address into its final form.

use vstd::prelude::*;
use crate::text::{chars_of, occurs_at, replace_all, replace_chars, string_of};
use crate::unicode::{decodable_at, decode_unicode_chars, lemma_normalize_leaves_no_escape, normalize};
use crate::watermark::{both_from, lemma_marker_chars, lemma_path_copied_prefix, lemma_path_stripped, lemma_query_after_path, lemma_strip_idempotent, marker_free, path_from, path_pass, remove_watermark_chars, strip_path_marker, strip_watermark};

verus! {

/// The address with each escaped slash replaced by a plain one.
pub open spec fn unescape_slashes(raw: Seq<char>) -> Seq<char> {
    replace_all(raw, "\\/"@, "/"@)
}

/// The final form of a captured address: slashes unescaped, then escapes
/// decoded, then watermark markers rewritten.
pub open spec fn clean_url(raw: Seq<char>) -> Seq<char> {
    strip_watermark(normalize(unescape_slashes(raw)))
}

/// No escape that decodes stands in the address.
pub open spec fn escape_free(url: Seq<char>) -> bool {
    forall|k: int| !decodable_at(url, k)
}

/// Where what one pass over both markers gives begins with `k` characters
/// that are neither a slash nor the letter `w`, it copied them, and goes on
/// behind them as the pass does from there.
proof fn lemma_both_copied_prefix(s: Seq<char>, i: int, k: int)
    requires
        0 <= i <= s.len(),
        0 <= k <= both_from(s, i).len(),
        forall|m: int| 0 <= m < k ==> #[trigger] both_from(s, i)[m] != '/' && both_from(s, i)[m] != 'w',
    ensures
        i + k <= s.len(),
        forall|m: int| 0 <= m < k ==> #[trigger] both_from(s, i)[m] == s[i + m],
        both_from(s, i).skip(k) == both_from(s, i + k),
    decreases k,
{
    let r = both_from(s, i);
    if k == 0 {
        assert(r.skip(0) =~= r);
    } else {
        lemma_marker_chars();
        assert(r[0] != '/' && r[0] != 'w');
        assert(i < s.len());
        assert(!occurs_at(s, "/playwm/"@, i)) by {
            if occurs_at(s, "/playwm/"@, i) {
                assert(r[0] == "/play/"@[0]);
            }
        }
        assert(!occurs_at(s, "watermark=1"@, i)) by {
            if occurs_at(s, "watermark=1"@, i) {
                assert(r[0] == "watermark=0"@[0]);
            }
        }
        let r1 = both_from(s, i + 1);
        assert(r == seq![s[i]] + r1);
        assert forall|m: int| 0 <= m < k - 1 implies #[trigger] r1[m] != '/' && r1[m] != 'w' by {
            assert(r1[m] == r[m + 1]);
        }
        lemma_both_copied_prefix(s, i + 1, k - 1);
        assert forall|m: int| 0 <= m < k implies #[trigger] r[m] == s[i + m] by {
            if m > 0 {
                assert(r[m] == r1[m - 1]);
            }
        }
        assert(r.skip(k) =~= r1.skip(k - 1));
    }
}

/// Rewriting the markers brings no escape that decodes into a text that held
/// none.
proof fn lemma_strip_adds_no_escape(s: Seq<char>, i: int, j: int)
    requires
        0 <= i <= s.len(),
        forall|k: int| !decodable_at(s, k),
    ensures
        !decodable_at(both_from(s, i), j),
    decreases s.len() - i,
{
    lemma_marker_chars();
    let r = both_from(s, i);
    if i < s.len() && decodable_at(r, j) {
        if occurs_at(s, "/playwm/"@, i) {
            let r1 = both_from(s, i + 8);
            assert(r == "/play/"@ + r1);
            if j >= 6 {
                lemma_strip_adds_no_escape(s, i + 8, j - 6);
                assert(r1[j - 6 + 0] == r[j + 0]);
                assert(r1[j - 6 + 1] == r[j + 1]);
                assert(r1[j - 6 + 2] == r[j + 2]);
                assert(r1[j - 6 + 3] == r[j + 3]);
                assert(r1[j - 6 + 4] == r[j + 4]);
                assert(r1[j - 6 + 5] == r[j + 5]);
                assert(decodable_at(r1, j - 6));
            } else {
                assert(r[j] == "/play/"@[j]);
                assert(false);
            }
        } else if occurs_at(s, "watermark=1"@, i) {
            let r1 = both_from(s, i + 11);
            assert(r == "watermark=0"@ + r1);
            if j >= 11 {
                lemma_strip_adds_no_escape(s, i + 11, j - 11);
                assert(r1[j - 11 + 0] == r[j + 0]);
                assert(r1[j - 11 + 1] == r[j + 1]);
                assert(r1[j - 11 + 2] == r[j + 2]);
                assert(r1[j - 11 + 3] == r[j + 3]);
                assert(r1[j - 11 + 4] == r[j + 4]);
                assert(r1[j - 11 + 5] == r[j + 5]);
                assert(decodable_at(r1, j - 11));
            } else {
                assert(r[j] == "watermark=0"@[j]);
                assert(false);
            }
        } else {
            let r1 = both_from(s, i + 1);
            assert(r == seq![s[i]] + r1);
            if j >= 1 {
                lemma_strip_adds_no_escape(s, i + 1, j - 1);
                assert(r1[j - 1 + 0] == r[j + 0]);
                assert(r1[j - 1 + 1] == r[j + 1]);
                assert(r1[j - 1 + 2] == r[j + 2]);
                assert(r1[j - 1 + 3] == r[j + 3]);
                assert(r1[j - 1 + 4] == r[j + 4]);
                assert(r1[j - 1 + 5] == r[j + 5]);
                assert(decodable_at(r1, j - 1));
            } else {
                assert forall|m: int| 0 <= m < 5 implies #[trigger] r1[m] != '/' && r1[m] != 'w' by {
                    assert(r1[m] == r[m + 1]);
                }
                lemma_both_copied_prefix(s, i + 1, 5);
                assert(s[i] == r[0]);
                assert(s[i + 1] == r1[0] && r1[0] == r[1]);
                assert(s[i + 2] == r1[1] && r1[1] == r[2]);
                assert(s[i + 3] == r1[2] && r1[2] == r[3]);
                assert(s[i + 4] == r1[3] && r1[3] == r[4]);
                assert(s[i + 5] == r1[4] && r1[4] == r[5]);
                assert(decodable_at(s, i));
            }
        }
    }
}

/// One pass of the path rule brings no escape that decodes into a text that
/// held none.
proof fn lemma_path_pass_adds_no_escape(s: Seq<char>, i: int, j: int)
    requires
        0 <= i <= s.len(),
        escape_free(s),
    ensures
        !decodable_at(path_from(s, i), j),
    decreases s.len() - i,
{
    lemma_marker_chars();
    let r = path_from(s, i);
    if i < s.len() && decodable_at(r, j) {
        if occurs_at(s, "/playwm/"@, i) {
            let r1 = path_from(s, i + 8);
            assert(r == "/play/"@ + r1);
            if j >= 6 {
                lemma_path_pass_adds_no_escape(s, i + 8, j - 6);
                assert(r1[j - 6 + 0] == r[j + 0]);
                assert(r1[j - 6 + 1] == r[j + 1]);
                assert(r1[j - 6 + 2] == r[j + 2]);
                assert(r1[j - 6 + 3] == r[j + 3]);
                assert(r1[j - 6 + 4] == r[j + 4]);
                assert(r1[j - 6 + 5] == r[j + 5]);
                assert(decodable_at(r1, j - 6));
            } else {
                assert(r[j] == "/play/"@[j]);
                assert(false);
            }
        } else {
            let r1 = path_from(s, i + 1);
            assert(r == seq![s[i]] + r1);
            if j >= 1 {
                lemma_path_pass_adds_no_escape(s, i + 1, j - 1);
                assert(r1[j - 1 + 0] == r[j + 0]);
                assert(r1[j - 1 + 1] == r[j + 1]);
                assert(r1[j - 1 + 2] == r[j + 2]);
                assert(r1[j - 1 + 3] == r[j + 3]);
                assert(r1[j - 1 + 4] == r[j + 4]);
                assert(r1[j - 1 + 5] == r[j + 5]);
                assert(decodable_at(r1, j - 1));
            } else {
                assert forall|m: int| 0 <= m < 5 implies #[trigger] r1[m] != '/' by {
                    assert(r1[m] == r[m + 1]);
                }
                lemma_path_copied_prefix(s, i + 1, 5);
                assert(s[i] == r[0]);
                assert(s[i + 1] == r1[0] && r1[0] == r[1]);
                assert(s[i + 2] == r1[1] && r1[1] == r[2]);
                assert(s[i + 3] == r1[2] && r1[2] == r[3]);
                assert(s[i + 4] == r1[3] && r1[3] == r[4]);
                assert(s[i + 5] == r1[4] && r1[4] == r[5]);
                assert(decodable_at(s, i));
            }
        }
    }
}

/// The path rule brings no escape that decodes into a text that held none.
proof fn lemma_path_rule_adds_no_escape(s: Seq<char>)
    requires
        escape_free(s),
    ensures
        escape_free(strip_path_marker(s)),
    decreases s.len(),
{
    let once = path_pass(s);
    if once.len() < s.len() {
        assert forall|k: int| !decodable_at(once, k) by {
            lemma_path_pass_adds_no_escape(s, 0, k);
        }
        lemma_path_rule_adds_no_escape(once);
    }
}

/// A cleaned address holds no escape that decodes.
pub proof fn lemma_clean_url_holds_no_escape(raw: Seq<char>)
    ensures
        escape_free(clean_url(raw)),
{
    let decoded = normalize(unescape_slashes(raw));
    let plain = strip_path_marker(decoded);
    lemma_normalize_leaves_no_escape(unescape_slashes(raw));
    lemma_path_rule_adds_no_escape(decoded);
    lemma_path_stripped(decoded);
    lemma_query_after_path(plain, 0);
    assert forall|k: int| !decodable_at(clean_url(raw), k) by {
        lemma_strip_adds_no_escape(plain, 0, k);
    }
}

/// A cleaned address holds neither watermark marker.
pub proof fn lemma_clean_url_holds_no_marker(raw: Seq<char>)
    ensures
        marker_free(clean_url(raw)),
{
    lemma_strip_idempotent(normalize(unescape_slashes(raw)));
}

/// Brings a captured address into its final form. Decoding comes before the
/// watermark markers are rewritten, so that a marker written with escapes is
/// seen. The result holds neither an escape that decodes nor a marker.
pub fn clean_media_url(raw: &str) -> (r: String)
    ensures
        r@ == clean_url(raw@),
        escape_free(r@),
        marker_free(r@),
{
    proof {
        lemma_clean_url_holds_no_escape(raw@);
    }
    let escaped = chars_of("\\/");
    let plain = chars_of("/");
    let unescaped = replace_chars(&chars_of(raw), &escaped, &plain);
    let decoded = decode_unicode_chars(unescaped);
    let stripped = remove_watermark_chars(&decoded);
    string_of(&stripped)
}

} // verus!
