//! Rewrites code-block class attributes: comma-separated annotations become
//! space-separated class tokens, everything else is kept byte for byte.

use vstd::prelude::*;

use crate::post_processor::PostProcessor;
use crate::post_processor::StageFailure;
use crate::text::chars_to_string;
use crate::text::find_char;
use crate::text::find_char_from;
use crate::text::lemma_find_char_from;
use crate::text::str_to_chars;

verus! {

/// The literal `class="` occurs at `k`.
pub open spec fn class_lit_at(s: Seq<char>, k: int) -> bool {
    &&& 0 <= k
    &&& k + 7 <= s.len()
    &&& s[k] == 'c'
    &&& s[k + 1] == 'l'
    &&& s[k + 2] == 'a'
    &&& s[k + 3] == 's'
    &&& s[k + 4] == 's'
    &&& s[k + 5] == '='
    &&& s[k + 6] == '"'
}

/// The attribute value and tag end for a candidate `class="` at `k`: the
/// value runs to the next quote and must not be empty, and the tag must
/// still close with a `>` after it.
pub open spec fn class_rest(s: Seq<char>, k: int) -> Option<(int, int)> {
    match find_char_from(s, k + 7, '"') {
        Some(q) => if q == k + 7 {
            None
        } else {
            match find_char_from(s, q + 1, '>') {
                Some(g) => Some((q, g)),
                None => None,
            }
        },
        None => None,
    }
}

/// The rightmost workable `class="` position in `(lo, hi]`: the scan starts
/// greedily at `hi` and backs off one position at a time.
pub open spec fn find_class_pos(s: Seq<char>, lo: int, k: int) -> Option<int>
    decreases k - lo,
    when lo <= k <= s.len()
{
    if k <= lo {
        None
    } else if class_lit_at(s, k) && class_rest(s, k) is Some {
        Some(k)
    } else {
        find_class_pos(s, lo, k - 1)
    }
}

/// The greedy upper bound for the `class="` scan after a `<code` at `i`:
/// everything before it must stay clear of `>`.
pub open spec fn scan_hi(s: Seq<char>, i: int) -> int {
    match find_char_from(s, i + 5, '>') {
        Some(g) => g,
        None => s.len() as int,
    }
}

/// The literal `<code` occurs at `i`.
pub open spec fn code_open_at(s: Seq<char>, i: int) -> bool {
    &&& 0 <= i
    &&& i + 5 <= s.len()
    &&& s[i] == '<'
    &&& s[i + 1] == 'c'
    &&& s[i + 2] == 'o'
    &&& s[i + 3] == 'd'
    &&& s[i + 4] == 'e'
}

/// A code opening tag carrying a class attribute is matched at `i`.
pub open spec fn code_match_at(s: Seq<char>, i: int) -> bool {
    &&& code_open_at(s, i)
    &&& find_class_pos(s, i + 5, scan_hi(s, i)) is Some
}

/// Every comma replaced by a space.
pub open spec fn replace_commas(b: Seq<char>) -> Seq<char> {
    b.map_values(|c: char| if c == ',' { ' ' } else { c })
}

/// Bounds of everything a match at `i` picks out.
pub proof fn lemma_code_match_bounds(s: Seq<char>, i: int)
    requires
        code_match_at(s, i),
    ensures
        ({
            let k = find_class_pos(s, i + 5, scan_hi(s, i))->Some_0;
            let qg = class_rest(s, k)->Some_0;
            i + 5 < k && k + 7 < qg.0 && qg.0 < qg.1 && qg.1 < s.len() && class_rest(s, k)
                is Some
        }),
{
    lemma_find_char_from(s, i + 5, '>');
    lemma_find_class_pos(s, i + 5, scan_hi(s, i));
    let k = find_class_pos(s, i + 5, scan_hi(s, i))->Some_0;
    lemma_find_char_from(s, k + 7, '"');
    let q = find_char_from(s, k + 7, '"')->Some_0;
    lemma_find_char_from(s, q + 1, '>');
}

/// A found class position lies in the scanned range and works; the scan
/// rejects every position above it.
pub proof fn lemma_find_class_pos(s: Seq<char>, lo: int, k: int)
    requires
        lo <= k <= s.len(),
    ensures
        match find_class_pos(s, lo, k) {
            Some(p) => lo < p <= k && class_lit_at(s, p) && class_rest(s, p) is Some
                && forall|t: int|
                p < t <= k ==> !(class_lit_at(s, t) && class_rest(s, t) is Some),
            None => forall|t: int|
                lo < t <= k ==> !(class_lit_at(s, t) && class_rest(s, t) is Some),
        },
    decreases k - lo,
{
    if k > lo && !(class_lit_at(s, k) && class_rest(s, k) is Some) {
        lemma_find_class_pos(s, lo, k - 1);
    }
}

/// The page from `i` on with every code opening tag's class attribute
/// comma-normalized.
pub open spec fn class_rewrite_from(s: Seq<char>, i: int) -> Seq<char>
    decreases s.len() - i,
    when 0 <= i <= s.len()
    via class_rewrite_from_dec
{
    if i >= s.len() {
        Seq::empty()
    } else if code_match_at(s, i) {
        let k = find_class_pos(s, i + 5, scan_hi(s, i))->Some_0;
        let qg = class_rest(s, k)->Some_0;
        s.subrange(i, k + 7) + replace_commas(s.subrange(k + 7, qg.0)) + s.subrange(
            qg.0,
            qg.1 + 1,
        ) + class_rewrite_from(s, qg.1 + 1)
    } else {
        seq![s[i]] + class_rewrite_from(s, i + 1)
    }
}

#[via_fn]
proof fn class_rewrite_from_dec(s: Seq<char>, i: int) {
    if 0 <= i <= s.len() && i < s.len() && code_match_at(s, i) {
        lemma_code_match_bounds(s, i);
    }
}

/// Replaces all commas by spaces in the class attributes of code tags.
pub struct CodeBlockProcessor;

impl CodeBlockProcessor {
    /// Blank initializer.
    pub fn new() -> (r: Self) {
        CodeBlockProcessor {}
    }
}

/// Executable backward scan for the rightmost workable `class="` position.
fn find_class_exec(v: &Vec<char>, lo: usize, hi: usize) -> (r: Option<(usize, usize, usize)>)
    requires
        lo <= hi <= v@.len(),
    ensures
        match r {
            Some(kqg) => find_class_pos(v@, lo as int, hi as int) == Some(kqg.0 as int)
                && class_rest(v@, kqg.0 as int) == Some((kqg.1 as int, kqg.2 as int)),
            None => find_class_pos(v@, lo as int, hi as int) is None,
        },
{
    let n = v.len();
    let mut k: usize = hi;
    while k > lo
        invariant
            lo <= k <= hi <= n,
            n == v@.len(),
            find_class_pos(v@, lo as int, hi as int) == find_class_pos(v@, lo as int, k as int),
        decreases k - lo,
    {
        let lit_here = n - k >= 7 && v[k] == 'c' && v[k + 1] == 'l' && v[k + 2] == 'a' && v[k + 3]
            == 's' && v[k + 4] == 's' && v[k + 5] == '=' && v[k + 6] == '"';
        if lit_here {
            match find_char(v, k + 7, '"') {
                Some(q) => {
                    proof {
                        lemma_find_char_from(v@, k + 7, '"');
                    }
                    if q > k + 7 {
                        match find_char(v, q + 1, '>') {
                            Some(g) => {
                                return Some((k, q, g));
                            },
                            None => {},
                        }
                    }
                },
                None => {},
            }
        }
        proof {
            assert(!(class_lit_at(v@, k as int) && class_rest(v@, k as int) is Some));
        }
        k = k - 1;
    }
    None
}

impl PostProcessor for CodeBlockProcessor {
    /// Every comma inside a matched class attribute becomes a space; nothing
    /// else changes. This stage never fails.
    open spec fn transform_spec(&self, html: Seq<char>) -> Option<Seq<char>> {
        Some(class_rewrite_from(html, 0))
    }

    fn execute(&self, html: &str) -> (r: Result<String, StageFailure>) {
        let v = str_to_chars(html);
        let n = v.len();
        let mut out: Vec<char> = Vec::new();
        let mut i: usize = 0;
        proof {
            assert(out@ + class_rewrite_from(v@, 0) =~= class_rewrite_from(v@, 0));
        }
        while i < n
            invariant
                n == v@.len(),
                i <= n,
                v@ == html@,
                class_rewrite_from(v@, 0) == out@ + class_rewrite_from(v@, i as int),
            decreases n - i,
        {
            let mut handled = false;
            let open_here = n - i >= 5 && v[i] == '<' && v[i + 1] == 'c' && v[i + 2] == 'o'
                && v[i + 3] == 'd' && v[i + 4] == 'e';
            if open_here {
                let hi = match find_char(&v, i + 5, '>') {
                    Some(g) => g,
                    None => n,
                };
                proof {
                    lemma_find_char_from(v@, i + 5, '>');
                    assert(hi as int == scan_hi(v@, i as int));
                }
                match find_class_exec(&v, i + 5, hi) {
                    Some((k, q, g)) => {
                        proof {
                            lemma_find_class_pos(v@, i + 5, hi as int);
                            lemma_find_char_from(v@, k + 7, '"');
                            lemma_find_char_from(v@, q + 1, '>');
                            assert(code_match_at(v@, i as int));
                        }
                        let ghost out0 = out@;
                        let mut t: usize = i;
                        while t < k + 7
                            invariant
                                i <= t <= k + 7,
                                k + 7 <= q < g < n == v@.len(),
                                out@ == out0 + v@.subrange(i as int, t as int),
                            decreases k + 7 - t,
                        {
                            out.push(v[t]);
                            t += 1;
                            proof {
                                assert(out@ =~= out0 + v@.subrange(i as int, t as int));
                            }
                        }
                        let ghost out1 = out@;
                        while t < q
                            invariant
                                k + 7 <= t <= q < g < n == v@.len(),
                                out@ == out1 + replace_commas(v@.subrange(k + 7, t as int)),
                            decreases q - t,
                        {
                            let c = v[t];
                            if c == ',' {
                                out.push(' ');
                            } else {
                                out.push(c);
                            }
                            t += 1;
                            proof {
                                assert(out@ =~= out1 + replace_commas(
                                    v@.subrange(k + 7, t as int),
                                ));
                            }
                        }
                        let ghost out2 = out@;
                        while t < g + 1
                            invariant
                                q <= t <= g + 1,
                                g < n == v@.len(),
                                out@ == out2 + v@.subrange(q as int, t as int),
                            decreases g + 1 - t,
                        {
                            out.push(v[t]);
                            t += 1;
                            proof {
                                assert(out@ =~= out2 + v@.subrange(q as int, t as int));
                            }
                        }
                        proof {
                            lemma_code_match_bounds(v@, i as int);
                            assert(out@ + class_rewrite_from(v@, g + 1) =~= out0
                                + class_rewrite_from(v@, i as int));
                        }
                        i = g + 1;
                        handled = true;
                    },
                    None => {},
                }
            }
            if !handled {
                let ghost out0 = out@;
                out.push(v[i]);
                proof {
                    assert(!code_match_at(v@, i as int));
                    assert(out@ =~= out0 + seq![v@[i as int]]);
                    assert(out@ + class_rewrite_from(v@, i + 1) =~= out0 + class_rewrite_from(
                        v@,
                        i as int,
                    ));
                }
                i += 1;
            }
        }
        proof {
            assert(class_rewrite_from(v@, n as int) =~= Seq::<char>::empty());
            assert(out@ =~= class_rewrite_from(v@, 0));
        }
        Ok(chars_to_string(&out))
    }
}

/// The class-attribute value a match at `i` picks out.
pub open spec fn matched_classes(s: Seq<char>, i: int) -> Seq<char> {
    let k = find_class_pos(s, i + 5, scan_hi(s, i))->Some_0;
    s.subrange(k + 7, class_rest(s, k)->Some_0.0)
}

/// LAW: on a page whose matched class attributes are already comma-free -
/// in particular an already space-separated class list - the normalizer is
/// a no-op.
pub proof fn lemma_class_rewrite_no_commas(s: Seq<char>, i: int)
    requires
        0 <= i <= s.len(),
        forall|t: int|
            0 <= t < s.len() && #[trigger] code_match_at(s, t) ==> forall|u: int|
                0 <= u < matched_classes(s, t).len() ==> matched_classes(s, t)[u] != ',',
    ensures
        class_rewrite_from(s, i) == s.skip(i),
    decreases s.len() - i,
{
    if i >= s.len() {
        assert(s.skip(i) =~= Seq::<char>::empty());
    } else if code_match_at(s, i) {
        lemma_code_match_bounds(s, i);
        let k = find_class_pos(s, i + 5, scan_hi(s, i))->Some_0;
        let qg = class_rest(s, k)->Some_0;
        lemma_class_rewrite_no_commas(s, qg.1 + 1);
        let b = s.subrange(k + 7, qg.0);
        assert(b == matched_classes(s, i));
        assert forall|u: int| 0 <= u < b.len() implies b[u] != ',' by {
            assert(matched_classes(s, i)[u] != ',');
        }
        assert(replace_commas(b) =~= b);
        assert(class_rewrite_from(s, i) =~= s.skip(i));
    } else {
        lemma_class_rewrite_no_commas(s, i + 1);
        assert(class_rewrite_from(s, i) =~= s.skip(i));
    }
}

} // verus!
