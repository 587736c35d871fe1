//! Rewrites every heading element so that its content is wrapped in an
//! anchor link carrying a stable, page-unique id derived from the content.

use vstd::prelude::*;

use crate::post_processor::PostProcessor;
use crate::post_processor::StageFailure;
use crate::text::chars_to_string;
use crate::text::dec_rep;
use crate::text::str_to_chars;
use crate::is_digit;

verus! {

/// The slug that the external text-normalization utility derives from a
/// heading's content: deterministic and a function of the content alone.
pub uninterp spec fn slug_of(content: Seq<char>) -> Seq<char>;

/// Relies on `mdbook::utils::id_from_content`: it derives a URL-safe slug
/// from the heading content string alone, deterministically.
#[verifier::external_body]
#[allow(deprecated)]
fn derive_slug(content: &str) -> (r: String)
    ensures
        r@ == slug_of(content@),
{
    mdbook::utils::id_from_content(content)
}

/// An opening heading tag `<h?>` with a single digit level starts at `i`.
pub open spec fn heading_open_at(s: Seq<char>, i: int) -> bool {
    &&& 0 <= i
    &&& i + 4 <= s.len()
    &&& s[i] == '<'
    &&& s[i + 1] == 'h'
    &&& is_digit(s[i + 2])
    &&& s[i + 3] == '>'
}

/// A closing heading tag `</h?>` with a single digit level starts at `j`.
pub open spec fn heading_close_at(s: Seq<char>, j: int) -> bool {
    &&& 0 <= j
    &&& j + 5 <= s.len()
    &&& s[j] == '<'
    &&& s[j + 1] == '/'
    &&& s[j + 2] == 'h'
    &&& is_digit(s[j + 3])
    &&& s[j + 4] == '>'
}

/// The first closing heading tag at or after `j`, unless a line break comes
/// first: heading content never spans lines.
pub open spec fn find_heading_close(s: Seq<char>, j: int) -> Option<int>
    decreases s.len() - j,
    when 0 <= j <= s.len()
{
    if j + 5 > s.len() {
        None
    } else if heading_close_at(s, j) {
        Some(j)
    } else if s[j] == '\n' {
        None
    } else {
        find_heading_close(s, j + 1)
    }
}

/// A found closing tag lies between `j` and the end of the string.
pub proof fn lemma_find_heading_close(s: Seq<char>, j: int)
    requires
        0 <= j <= s.len(),
    ensures
        match find_heading_close(s, j) {
            Some(p) => j <= p && p + 5 <= s.len() && heading_close_at(s, p),
            None => true,
        },
    decreases s.len() - j,
{
    if j + 5 <= s.len() && !heading_close_at(s, j) && s[j] != '\n' {
        lemma_find_heading_close(s, j + 1);
    }
}

/// The number of headings with slug `k` already seen, per the registry `cs`.
pub open spec fn count_of(cs: Seq<(Seq<char>, nat)>, k: Seq<char>) -> nat
    decreases cs.len(),
{
    if cs.len() == 0 {
        0
    } else if cs[0].0 == k {
        cs[0].1
    } else {
        count_of(cs.drop_first(), k)
    }
}

/// The registry after one more heading with slug `k`.
pub open spec fn bump(cs: Seq<(Seq<char>, nat)>, k: Seq<char>) -> Seq<(Seq<char>, nat)>
    decreases cs.len(),
{
    if cs.len() == 0 {
        seq![(k, 1nat)]
    } else if cs[0].0 == k {
        seq![(cs[0].0, (cs[0].1 + 1) as nat)] + cs.drop_first()
    } else {
        seq![cs[0]] + bump(cs.drop_first(), k)
    }
}

/// Bumping one slug increments its count and leaves every other count alone.
pub proof fn lemma_bump_count(cs: Seq<(Seq<char>, nat)>, k: Seq<char>, k2: Seq<char>)
    ensures
        count_of(bump(cs, k), k2) == if k2 == k {
            count_of(cs, k) + 1
        } else {
            count_of(cs, k2)
        },
    decreases cs.len(),
{
    reveal_with_fuel(count_of, 3);
    reveal_with_fuel(bump, 3);
    if cs.len() == 0 {
        assert(bump(cs, k) == seq![(k, 1nat)]);
        assert(count_of(bump(cs, k).drop_first(), k2) == 0);
        assert(bump(cs, k)[0] == (k, 1nat));
        assert(bump(cs, k).drop_first() =~= Seq::<(Seq<char>, nat)>::empty());
    } else if cs[0].0 == k {
        assert(bump(cs, k)[0] == (cs[0].0, (cs[0].1 + 1) as nat));
        assert(bump(cs, k).drop_first() =~= cs.drop_first());
    } else {
        lemma_bump_count(cs.drop_first(), k, k2);
        assert(bump(cs, k)[0] == cs[0]);
        assert(bump(cs, k).drop_first() =~= bump(cs.drop_first(), k));
    }
}

/// The id emitted for the `c`-th occurrence of `slug` on one page: the slug
/// itself first, then the slug with an occurrence suffix.
pub open spec fn anchor_id(slug: Seq<char>, c: nat) -> Seq<char> {
    if c == 0 {
        slug
    } else {
        slug + seq!['-'] + dec_rep(c)
    }
}

/// The rewritten heading: the original level and content, with the content
/// wrapped in an anchor link that carries the id.
pub open spec fn heading_replacement(d: char, id: Seq<char>, content: Seq<char>) -> Seq<char> {
    seq!['<', 'h', d, '>'] + "<a class=\"header\" href=\"#"@ + id + "\" id=\""@ + id + "\">"@
        + content + "</a></h"@ + seq![d, '>']
}

/// The page from position `i` on, with every heading rewritten and the
/// registry `cs` carrying the slug counts seen so far.
pub open spec fn anchor_rewrite_from(s: Seq<char>, i: int, cs: Seq<(Seq<char>, nat)>) -> Seq<char>
    decreases s.len() - i,
    when 0 <= i <= s.len()
    via anchor_rewrite_from_dec
{
    if i >= s.len() {
        Seq::empty()
    } else if heading_open_at(s, i) && find_heading_close(s, i + 4) is Some {
        let j = find_heading_close(s, i + 4)->Some_0;
        let content = s.subrange(i + 4, j);
        let slug = slug_of(content);
        heading_replacement(s[i + 2], anchor_id(slug, count_of(cs, slug)), content)
            + anchor_rewrite_from(s, j + 5, bump(cs, slug))
    } else {
        seq![s[i]] + anchor_rewrite_from(s, i + 1, cs)
    }
}

#[via_fn]
proof fn anchor_rewrite_from_dec(s: Seq<char>, i: int, cs: Seq<(Seq<char>, nat)>) {
    if 0 <= i <= s.len() && i < s.len() && heading_open_at(s, i) && find_heading_close(s, i + 4)
        is Some {
        lemma_find_heading_close(s, i + 4);
    }
}

/// Goes through the rendered HTML, making sure all header tags have an
/// anchor respectively so people can link to sections directly.
pub struct HeaderLinkProcessor;

impl HeaderLinkProcessor {
    /// Blank initializer.
    pub fn new() -> (r: Self) {
        HeaderLinkProcessor {}
    }
}

/// The model of the per-page id registry: slugs with occurrence counts.
pub open spec fn reg_model(rs: Seq<(Vec<char>, usize)>) -> Seq<(Seq<char>, nat)> {
    rs.map_values(|e: (Vec<char>, usize)| (e.0@, e.1 as nat))
}

/// Record one more occurrence of `key` and hand back how many came before.
fn reg_take(reg: &mut Vec<(Vec<char>, usize)>, key: &Vec<char>) -> (c: usize)
    requires
        forall|t: int| 0 <= t < old(reg)@.len() ==> old(reg)@[t].1 < usize::MAX,
    ensures
        c as nat == count_of(reg_model(old(reg)@), key@),
        reg_model(final(reg)@) == bump(reg_model(old(reg)@), key@),
        forall|t: int|
            0 <= t < final(reg)@.len() ==> final(reg)@[t].1 as nat <= c as nat + 1 || exists|u: int|
                0 <= u < old(reg)@.len() && final(reg)@[t].1 == old(reg)@[u].1,
{
    let n = reg.len();
    let mut i: usize = 0;
    while i < n
        invariant
            n == reg@.len(),
            i <= n,
            reg@ == old(reg)@,
            forall|t: int| 0 <= t < old(reg)@.len() ==> old(reg)@[t].1 < usize::MAX,
            forall|t: int| 0 <= t < i ==> reg@[t].0@ != key@,
        decreases n - i,
    {
        if chars_eq(&reg[i].0, key) {
            let c = reg[i].1;
            let newkey = copy_chars(&reg[i].0);
            reg.set(i, (newkey, c + 1));
            proof {
                lemma_reg_first_match(reg_model(old(reg)@), key@, i as int);
                assert(reg_model(reg@) =~= bump(reg_model(old(reg)@), key@));
            }
            return c;
        }
        i += 1;
    }
    let newkey = copy_chars(key);
    reg.push((newkey, 1));
    proof {
        lemma_reg_no_match(reg_model(old(reg)@), key@);
        assert(reg_model(reg@) =~= reg_model(old(reg)@).push((key@, 1nat)));
        assert(reg_model(reg@) =~= bump(reg_model(old(reg)@), key@));
    }
    0
}

/// With no earlier match at `i`, count and bump act exactly at index `i`.
proof fn lemma_reg_first_match(cs: Seq<(Seq<char>, nat)>, k: Seq<char>, i: int)
    requires
        0 <= i < cs.len(),
        cs[i].0 == k,
        forall|t: int| 0 <= t < i ==> cs[t].0 != k,
    ensures
        count_of(cs, k) == cs[i].1,
        bump(cs, k) =~= cs.update(i, (cs[i].0, (cs[i].1 + 1) as nat)),
    decreases i,
{
    if i == 0 {
        assert(bump(cs, k) =~= cs.update(0, (cs[0].0, (cs[0].1 + 1) as nat)));
    } else {
        lemma_reg_first_match(cs.drop_first(), k, i - 1);
        assert(bump(cs, k) =~= cs.update(i, (cs[i].0, (cs[i].1 + 1) as nat)));
    }
}

/// With no match anywhere, the count is zero and bumping appends.
proof fn lemma_reg_no_match(cs: Seq<(Seq<char>, nat)>, k: Seq<char>)
    requires
        forall|t: int| 0 <= t < cs.len() ==> cs[t].0 != k,
    ensures
        count_of(cs, k) == 0,
        bump(cs, k) =~= cs.push((k, 1nat)),
    decreases cs.len(),
{
    if cs.len() > 0 {
        lemma_reg_no_match(cs.drop_first(), k);
        assert(bump(cs, k) =~= cs.push((k, 1nat)));
    }
}

/// A count read from the registry never exceeds a bound on all its counts.
proof fn lemma_count_bound(cs: Seq<(Seq<char>, nat)>, k: Seq<char>, bound: nat)
    requires
        forall|t: int| 0 <= t < cs.len() ==> cs[t].1 <= bound,
    ensures
        count_of(cs, k) <= bound,
    decreases cs.len(),
{
    if cs.len() > 0 && cs[0].0 != k {
        lemma_count_bound(cs.drop_first(), k, bound);
    }
}

/// Character-wise equality of two vectors.
fn chars_eq(a: &Vec<char>, b: &Vec<char>) -> (r: bool)
    ensures
        r == (a@ == b@),
{
    let n = a.len();
    if n != b.len() {
        proof {
            assert(a@ != b@);
        }
        return false;
    }
    let mut i: usize = 0;
    while i < n
        invariant
            n == a@.len() == b@.len(),
            i <= n,
            forall|t: int| 0 <= t < i ==> a@[t] == b@[t],
        decreases n - i,
    {
        if a[i] != b[i] {
            return false;
        }
        i += 1;
    }
    proof {
        assert(a@ =~= b@);
    }
    true
}

/// A copy of a character vector.
fn copy_chars(v: &Vec<char>) -> (r: Vec<char>)
    ensures
        r@ == v@,
{
    let n = v.len();
    let mut r: Vec<char> = Vec::new();
    let mut i: usize = 0;
    while i < n
        invariant
            n == v@.len(),
            i <= n,
            r@ == v@.subrange(0, i as int),
        decreases n - i,
    {
        r.push(v[i]);
        i += 1;
        proof {
            assert(r@ =~= v@.subrange(0, i as int));
        }
    }
    proof {
        assert(r@ =~= v@);
    }
    r
}

/// A copy of `v[a..b]`.
pub fn sub_chars(v: &Vec<char>, a: usize, b: usize) -> (r: Vec<char>)
    requires
        a <= b <= v@.len(),
    ensures
        r@ == v@.subrange(a as int, b as int),
{
    let mut r: Vec<char> = Vec::new();
    let mut i: usize = a;
    while i < b
        invariant
            a <= i <= b <= v@.len(),
            r@ == v@.subrange(a as int, i as int),
        decreases b - i,
    {
        r.push(v[i]);
        i += 1;
        proof {
            assert(r@ =~= v@.subrange(a as int, i as int));
        }
    }
    r
}

/// Executable search for the closing heading tag, cut short by line breaks.
fn find_close(v: &Vec<char>, j: usize) -> (r: Option<usize>)
    requires
        j <= v@.len(),
    ensures
        match r {
            Some(p) => find_heading_close(v@, j as int) == Some(p as int) && j <= p && p + 5
                <= v@.len(),
            None => find_heading_close(v@, j as int) is None,
        },
{
    let n = v.len();
    let mut i: usize = j;
    while n - i >= 5
        invariant
            n == v@.len(),
            j <= i <= n,
            find_heading_close(v@, j as int) == find_heading_close(v@, i as int),
        decreases n - i,
    {
        if v[i] == '<' && v[i + 1] == '/' && v[i + 2] == 'h' && crate::digit_check(v[i + 3])
            && v[i + 4] == '>' {
            return Some(i);
        }
        if v[i] == '\n' {
            return None;
        }
        i += 1;
    }
    None
}

impl PostProcessor for HeaderLinkProcessor {
    /// Every heading gains an anchor id; slug counts start fresh per page.
    open spec fn transform_spec(&self, html: Seq<char>) -> Option<Seq<char>> {
        Some(anchor_rewrite_from(html, 0, Seq::empty()))
    }

    fn execute(&self, html: &str) -> (r: Result<String, StageFailure>) {
        let v = str_to_chars(html);
        let n = v.len();
        let mut out: Vec<char> = Vec::new();
        let mut reg: Vec<(Vec<char>, usize)> = Vec::new();
        let ghost mut mcount: nat = 0nat;
        let mut i: usize = 0;
        proof {
            assert(reg_model(reg@) =~= Seq::<(Seq<char>, nat)>::empty());
            assert(out@ + anchor_rewrite_from(v@, 0, reg_model(reg@)) =~= anchor_rewrite_from(
                v@,
                0,
                Seq::empty(),
            ));
        }
        while i < n
            invariant
                n == v@.len(),
                i <= n,
                v@ == html@,
                anchor_rewrite_from(v@, 0, Seq::empty()) == out@ + anchor_rewrite_from(
                    v@,
                    i as int,
                    reg_model(reg@),
                ),
                9 * mcount <= i,
                forall|t: int| 0 <= t < reg@.len() ==> reg@[t].1 as nat <= mcount,
            decreases n - i,
        {
            let ghost cs = reg_model(reg@);
            let is_open = n - i >= 4 && v[i] == '<' && v[i + 1] == 'h' && crate::digit_check(
                v[i + 2],
            ) && v[i + 3] == '>';
            let mut matched: Option<usize> = None;
            if is_open {
                matched = find_close(&v, i + 4);
            }
            match matched {
                Some(j) => {
                    let content = sub_chars(&v, i + 4, j);
                    let content_str = chars_to_string(&content);
                    let slug_str = derive_slug(content_str.as_str());
                    let slug = str_to_chars(slug_str.as_str());
                    proof {
                        assert(mcount < usize::MAX);
                        assert(forall|t: int|
                            0 <= t < reg@.len() ==> (#[trigger] reg_model(reg@)[t]).1 == reg@[t].1
                                as nat && reg_model(reg@)[t].0 == reg@[t].0@);
                        lemma_count_bound(cs, slug@, mcount);
                    }
                    let ghost regpre = reg@;
                    let c = reg_take(&mut reg, &slug);
                    let id = make_id(&slug, c);
                    let ghost out0 = out@;
                    out.push('<');
                    out.push('h');
                    out.push(v[i + 2]);
                    out.push('>');
                    let mut lit1 = str_to_chars("<a class=\"header\" href=\"#");
                    out.append(&mut lit1);
                    let mut idc = copy_chars(&id);
                    out.append(&mut idc);
                    let mut lit2 = str_to_chars("\" id=\"");
                    out.append(&mut lit2);
                    let mut idc2 = copy_chars(&id);
                    out.append(&mut idc2);
                    let mut lit3 = str_to_chars("\">");
                    out.append(&mut lit3);
                    let mut contentc = copy_chars(&content);
                    out.append(&mut contentc);
                    let mut lit4 = str_to_chars("</a></h");
                    out.append(&mut lit4);
                    out.push(v[i + 2]);
                    out.push('>');
                    proof {
                        let repl = heading_replacement(
                            v@[i + 2],
                            anchor_id(slug@, c as nat),
                            content@,
                        );
                        assert(out@ =~= out0 + repl);
                        assert(heading_open_at(v@, i as int));
                        assert(slug@ == slug_of(content@));
                        assert(anchor_rewrite_from(v@, i as int, cs) == repl + anchor_rewrite_from(
                            v@,
                            j + 5,
                            bump(cs, slug@),
                        ));
                        assert(reg_model(reg@) == bump(cs, slug@));
                        assert(out@ + anchor_rewrite_from(v@, j + 5, reg_model(reg@)) =~= out0
                            + anchor_rewrite_from(v@, i as int, cs));
                        mcount = mcount + 1;
                        assert(forall|t: int|
                            0 <= t < reg@.len() ==> (#[trigger] reg_model(reg@)[t]).1 == reg@[t].1
                                as nat);
                        assert(forall|t: int| 0 <= t < reg@.len() ==> reg@[t].1 as nat <= mcount);
                    }
                    i = j + 5;
                },
                None => {
                    let ghost out0 = out@;
                    out.push(v[i]);
                    proof {
                        assert(anchor_rewrite_from(v@, i as int, cs) == seq![v@[i as int]]
                            + anchor_rewrite_from(v@, i + 1, cs));
                        assert(out@ =~= out0 + seq![v@[i as int]]);
                        assert(out@ + anchor_rewrite_from(v@, i + 1, cs) =~= out0
                            + anchor_rewrite_from(v@, i as int, cs));
                    }
                    i += 1;
                },
            }
        }
        proof {
            assert(anchor_rewrite_from(v@, n as int, reg_model(reg@)) =~= Seq::<char>::empty());
            assert(out@ =~= anchor_rewrite_from(v@, 0, Seq::empty()));
        }
        Ok(chars_to_string(&out))
    }
}

/// Build the id for the `c`-th occurrence of a slug.
fn make_id(slug: &Vec<char>, c: usize) -> (r: Vec<char>)
    ensures
        r@ == anchor_id(slug@, c as nat),
{
    let mut r = copy_chars(slug);
    if c > 0 {
        r.push('-');
        let mut d = crate::text::u64_dec_chars(c as u64);
        r.append(&mut d);
        proof {
            assert(r@ =~= slug@ + seq!['-'] + dec_rep(c as nat));
        }
    }
    r
}

} // verus!

verus! {

/// The heading contents of the page from `i` on, in document order.
pub open spec fn headings_from(s: Seq<char>, i: int) -> Seq<Seq<char>>
    decreases s.len() - i,
    when 0 <= i <= s.len()
    via headings_from_dec
{
    if i >= s.len() {
        Seq::empty()
    } else if heading_open_at(s, i) && find_heading_close(s, i + 4) is Some {
        let j = find_heading_close(s, i + 4)->Some_0;
        seq![s.subrange(i + 4, j)] + headings_from(s, j + 5)
    } else {
        headings_from(s, i + 1)
    }
}

#[via_fn]
proof fn headings_from_dec(s: Seq<char>, i: int) {
    if 0 <= i < s.len() && heading_open_at(s, i) && find_heading_close(s, i + 4) is Some {
        lemma_find_heading_close(s, i + 4);
    }
}

/// The anchor ids the injector assigns from `i` on, starting from the
/// registry `cs`, in document order.
pub open spec fn ids_from(s: Seq<char>, i: int, cs: Seq<(Seq<char>, nat)>) -> Seq<Seq<char>>
    decreases s.len() - i,
    when 0 <= i <= s.len()
    via ids_from_dec
{
    if i >= s.len() {
        Seq::empty()
    } else if heading_open_at(s, i) && find_heading_close(s, i + 4) is Some {
        let j = find_heading_close(s, i + 4)->Some_0;
        let slug = slug_of(s.subrange(i + 4, j));
        seq![anchor_id(slug, count_of(cs, slug))] + ids_from(s, j + 5, bump(cs, slug))
    } else {
        ids_from(s, i + 1, cs)
    }
}

#[via_fn]
proof fn ids_from_dec(s: Seq<char>, i: int, cs: Seq<(Seq<char>, nat)>) {
    if 0 <= i < s.len() && heading_open_at(s, i) && find_heading_close(s, i + 4) is Some {
        lemma_find_heading_close(s, i + 4);
    }
}

/// LAW: the anchor injector leaves a page without a single heading match
/// unchanged, whatever the registry holds.
pub proof fn lemma_anchor_no_headings(s: Seq<char>, i: int, cs: Seq<(Seq<char>, nat)>)
    requires
        0 <= i <= s.len(),
        forall|t: int|
            0 <= t < s.len() ==> !(#[trigger] heading_open_at(s, t) && find_heading_close(s, t + 4)
                is Some),
    ensures
        anchor_rewrite_from(s, i, cs) == s.skip(i),
    decreases s.len() - i,
{
    if i >= s.len() {
        assert(s.skip(i) =~= Seq::<char>::empty());
    } else {
        lemma_anchor_no_headings(s, i + 1, cs);
        assert(anchor_rewrite_from(s, i, cs) =~= s.skip(i));
    }
}

/// When every heading from `i` on derives the same slug, the assigned ids
/// continue that slug's numbering from the registry's current count.
pub proof fn lemma_ids_same_slug(s: Seq<char>, i: int, cs: Seq<(Seq<char>, nat)>, sl: Seq<char>)
    requires
        0 <= i <= s.len(),
        forall|t: int|
            0 <= t < headings_from(s, i).len() ==> slug_of(#[trigger] headings_from(s, i)[t])
                == sl,
    ensures
        ids_from(s, i, cs) == Seq::new(
            headings_from(s, i).len(),
            |t: int| anchor_id(sl, (count_of(cs, sl) + t) as nat),
        ),
    decreases s.len() - i,
{
    let hs = headings_from(s, i);
    let goal = Seq::new(hs.len(), |t: int| anchor_id(sl, (count_of(cs, sl) + t) as nat));
    if i >= s.len() {
        assert(ids_from(s, i, cs) =~= goal);
    } else if heading_open_at(s, i) && find_heading_close(s, i + 4) is Some {
        lemma_find_heading_close(s, i + 4);
        let j = find_heading_close(s, i + 4)->Some_0;
        let content = s.subrange(i + 4, j);
        assert(hs[0] == content);
        assert(slug_of(content) == sl);
        let hs2 = headings_from(s, j + 5);
        assert(forall|t: int| 0 <= t < hs2.len() ==> hs2[t] == hs[t + 1]);
        lemma_bump_count(cs, sl, sl);
        lemma_ids_same_slug(s, j + 5, bump(cs, sl), sl);
        assert(ids_from(s, i, cs) =~= goal);
    } else {
        assert(headings_from(s, i + 1) == hs);
        lemma_ids_same_slug(s, i + 1, cs, sl);
        assert(ids_from(s, i, cs) =~= goal);
    }
}

/// Two occurrence numbers of one slug give two different ids.
pub proof fn lemma_anchor_ids_distinct(sl: Seq<char>, a: nat, b: nat)
    requires
        a != b,
    ensures
        anchor_id(sl, a) != anchor_id(sl, b),
{
    crate::text::lemma_dec_rep_len(a);
    crate::text::lemma_dec_rep_len(b);
    if a == 0 || b == 0 {
    } else if anchor_id(sl, a) == anchor_id(sl, b) {
        let la = sl.len() as int;
        assert(dec_rep(a) =~= anchor_id(sl, a).subrange(la + 1, anchor_id(sl, a).len() as int));
        assert(dec_rep(b) =~= anchor_id(sl, b).subrange(la + 1, anchor_id(sl, b).len() as int));
        crate::text::lemma_dec_rep_injective(a, b);
    }
}

/// LAW: on a page whose headings all derive one slug, the injector assigns,
/// in document order, the slug itself and then the slug with each next
/// occurrence number - and all the assigned ids are pairwise distinct.
pub proof fn lemma_anchor_ids_for_shared_slug(s: Seq<char>, sl: Seq<char>)
    requires
        forall|t: int|
            0 <= t < headings_from(s, 0).len() ==> slug_of(#[trigger] headings_from(s, 0)[t])
                == sl,
    ensures
        ids_from(s, 0, Seq::empty()) == Seq::new(
            headings_from(s, 0).len(),
            |t: int| anchor_id(sl, t as nat),
        ),
        forall|u: int, w: int|
            0 <= u < w < ids_from(s, 0, Seq::empty()).len() ==> ids_from(s, 0, Seq::empty())[u]
                != ids_from(s, 0, Seq::empty())[w],
{
    lemma_ids_same_slug(s, 0, Seq::empty(), sl);
    assert(count_of(Seq::empty(), sl) == 0);
    let ids = ids_from(s, 0, Seq::empty());
    assert(ids =~= Seq::new(headings_from(s, 0).len(), |t: int| anchor_id(sl, t as nat)));
    assert forall|u: int, w: int| 0 <= u < w < ids.len() implies ids[u] != ids[w] by {
        lemma_anchor_ids_distinct(sl, u as nat, w as nat);
    }
}

} // verus!
