//! Rewrites runnable code blocks into an executable-playground presentation,
//! injecting a hidden program entry point around partial source fragments.

use vstd::prelude::*;

use crate::post_processor::PostProcessor;
use crate::post_processor::StageFailure;
use crate::text::chars_to_string;
use crate::text::contains_chars;
use crate::text::contains_seq;
use crate::text::find_char;
use crate::text::is_ws;
use crate::text::ws_check;
use crate::text::find_char_from;
use crate::text::lemma_find_char_from;
use crate::text::starts_at;
use crate::text::starts_with_at;
use crate::text::str_to_chars;

verus! {

/// The position of the first occurrence of `pat` at or after `j`.
pub open spec fn find_seq_from(s: Seq<char>, j: int, pat: Seq<char>) -> Option<int>
    decreases s.len() - j,
    when 0 <= j <= s.len() + 1 && pat.len() >= 1
{
    if j + pat.len() > s.len() {
        None
    } else if starts_with_at(s, j, pat) {
        Some(j)
    } else {
        find_seq_from(s, j + 1, pat)
    }
}

/// What a successful or failed pattern search says about the string.
pub proof fn lemma_find_seq_from(s: Seq<char>, j: int, pat: Seq<char>)
    requires
        0 <= j <= s.len() + 1,
        pat.len() >= 1,
    ensures
        match find_seq_from(s, j, pat) {
            Some(p) => j <= p && p + pat.len() <= s.len() && starts_with_at(s, p, pat)
                && forall|t: int| j <= t < p ==> !starts_with_at(s, t, pat),
            None => forall|t: int| t >= j ==> !starts_with_at(s, t, pat),
        },
    decreases s.len() - j,
{
    if j + pat.len() <= s.len() && !starts_with_at(s, j, pat) {
        lemma_find_seq_from(s, j + 1, pat);
    }
}

/// Executable search for the first occurrence of `pat` at or after `j`.
pub fn find_seq(v: &Vec<char>, j: usize, pat: &Vec<char>) -> (r: Option<usize>)
    requires
        j <= v@.len(),
        pat@.len() >= 1,
    ensures
        match r {
            Some(p) => find_seq_from(v@, j as int, pat@) == Some(p as int),
            None => find_seq_from(v@, j as int, pat@) is None,
        },
{
    let n = v.len();
    let m = pat.len();
    let mut i: usize = j;
    while i <= n && n - i >= m
        invariant
            n == v@.len(),
            m == pat@.len(),
            1 <= m,
            j <= i <= n + 1,
            find_seq_from(v@, j as int, pat@) == find_seq_from(v@, i as int, pat@),
        decreases n - i,
    {
        if starts_at(v, i, pat) {
            return Some(i);
        }
        i += 1;
    }
    None
}

/// The closing tag of a code block.
pub open spec fn code_close() -> Seq<char> {
    seq!['<', '/', 'c', 'o', 'd', 'e', '>']
}

/// The pieces of a playground match at `i` for gap width `x` (one optional
/// attribute character between `<code` and `class="`): the class position,
/// the closing quote, the tag end, and the start of `</code>`.
pub open spec fn play_try(s: Seq<char>, i: int, x: int) -> Option<(int, int, int)> {
    let p = i + 5 + x;
    if !crate::post_processor::code_block::class_lit_at(s, p) {
        None
    } else if x == 1 && (i + 5 >= s.len() || s[i + 5] == '>') {
        None
    } else {
        match find_char_from(s, p + 7, '"') {
            Some(q) => if q == p + 7 {
                None
            } else {
                match find_char_from(s, q + 1, '>') {
                    Some(g) => match find_seq_from(s, g + 1, code_close()) {
                        Some(e) => Some((q, g, e)),
                        None => None,
                    },
                    None => None,
                }
            },
            None => None,
        }
    }
}

/// The gap width a match at `i` uses: one attribute character when that
/// still matches, none otherwise.
pub open spec fn play_x(s: Seq<char>, i: int) -> int {
    if play_try(s, i, 1) is Some {
        1
    } else {
        0
    }
}

/// A runnable-candidate code block is matched at `i`.
pub open spec fn play_match_at(s: Seq<char>, i: int) -> bool {
    &&& crate::post_processor::code_block::code_open_at(s, i)
    &&& play_try(s, i, play_x(s, i)) is Some
}

/// Everything between two positions, as the classes of a match.
pub open spec fn play_classes(s: Seq<char>, i: int) -> Seq<char> {
    let x = play_x(s, i);
    let qge = play_try(s, i, x)->Some_0;
    s.subrange(i + 5 + x + 7, qge.0)
}

/// Whether the class list qualifies the block for the playground: a runnable
/// language not opted out, or an explicit runnable marker.
pub open spec fn play_qualifies(classes: Seq<char>) -> bool {
    (contains_seq(classes, "language-rust"@) && !contains_seq(classes, "ignore"@)
        && !contains_seq(classes, "noplaypen"@)) || contains_seq(classes, "mdbook-runnable"@)
}

/// Whether the matched block already forms a complete runnable unit or is
/// handed to the reader for editing: it is then wrapped verbatim.
pub open spec fn play_verbatim(text: Seq<char>, classes: Seq<char>, editable: bool) -> bool {
    (editable && contains_seq(classes, "editable"@)) || contains_seq(text, "fn main"@)
        || contains_seq(text, "quick_main!"@)
}

/// The first non-whitespace position in `l` at or after `t`.
pub open spec fn skip_ws(l: Seq<char>, t: int) -> int
    decreases l.len() - t,
    when 0 <= t <= l.len()
{
    if t >= l.len() {
        t
    } else if is_ws(l[t]) {
        skip_ws(l, t + 1)
    } else {
        t
    }
}

/// A line that may legally precede the injected entry point: blank, or an
/// inner attribute declaration.
pub open spec fn header_line(l: Seq<char>) -> bool {
    let t = skip_ws(l, 0);
    t >= l.len() || (t + 3 <= l.len() && l[t] == '#' && l[t + 1] == '!' && l[t + 2] == '[')
}

/// A trailing carriage return is dropped from a line that ended in `\r\n`.
pub open spec fn strip_cr(l: Seq<char>) -> Seq<char> {
    if l.len() > 0 && l.last() == '\r' {
        l.drop_last()
    } else {
        l
    }
}

/// The lines of `s` from position `t` on, split at line feeds.
pub open spec fn lines_from(s: Seq<char>, t: int) -> Seq<Seq<char>>
    decreases s.len() - t,
    when 0 <= t <= s.len()
    via lines_from_dec
{
    if t >= s.len() {
        Seq::empty()
    } else {
        match find_char_from(s, t, '\n') {
            Some(p) => seq![strip_cr(s.subrange(t, p))] + lines_from(s, p + 1),
            None => seq![s.subrange(t, s.len() as int)],
        }
    }
}

#[via_fn]
proof fn lines_from_dec(s: Seq<char>, t: int) {
    if 0 <= t <= s.len() && t < s.len() {
        lemma_find_char_from(s, t, '\n');
    }
}

/// The lines `lo` to `hi` of `ls`, joined with a line feed after each.
pub open spec fn join_part(ls: Seq<Seq<char>>, lo: int, hi: int) -> Seq<char>
    decreases hi - lo,
{
    if lo >= hi {
        Seq::empty()
    } else {
        ls[lo] + seq!['\n'] + join_part(ls, lo + 1, hi)
    }
}

/// How many leading lines of `ls` are header lines.
pub open spec fn header_prefix(ls: Seq<Seq<char>>, t: int) -> int
    decreases ls.len() - t,
    when 0 <= t <= ls.len()
{
    if t >= ls.len() {
        t
    } else if header_line(ls[t]) {
        header_prefix(ls, t + 1)
    } else {
        t
    }
}

/// The header partition of a code body: its leading blank or attribute
/// lines, joined back with line feeds.
pub open spec fn partition_before(s: Seq<char>) -> Seq<char> {
    let ls = lines_from(s, 0);
    join_part(ls, 0, header_prefix(ls, 0))
}

/// The body partition of a code body: everything from the first
/// non-header line on, joined back with line feeds.
pub open spec fn partition_after(s: Seq<char>) -> Seq<char> {
    let ls = lines_from(s, 0);
    join_part(ls, header_prefix(ls, 0), ls.len() as int)
}

/// Wraps runnable code blocks in a playground container, injecting a hidden
/// program entry point around partial source fragments.
pub struct PlaypenProcessor {
    pub editable: bool,
    pub copy_js: bool,
}

/// The playground flags a book's configuration supplies.
pub struct PlaypenConfig {
    pub editable: bool,
    pub copy_js: bool,
}

impl PlaypenProcessor {
    /// A processor carrying the book's playground flags.
    pub fn new_with_config(playpen_config: &PlaypenConfig) -> (r: Self)
        ensures
            r.editable == playpen_config.editable,
            r.copy_js == playpen_config.copy_js,
    {
        PlaypenProcessor { editable: playpen_config.editable, copy_js: playpen_config.copy_js }
    }

    /// Split a code body into its header partition (leading blank or inner
    /// attribute lines) and its body partition (everything after), each line
    /// re-terminated with a line feed.
    pub fn partition_source(s: &str) -> (r: (String, String))
        ensures
            r.0@ == partition_before(s@),
            r.1@ == partition_after(s@),
    {
        let v = str_to_chars(s);
        let lines = split_lines(&v);
        let ghost ls = lines_from(v@, 0);
        let ghost hp = header_prefix(ls, 0);
        let mut before: Vec<char> = Vec::new();
        let mut after: Vec<char> = Vec::new();
        let n = lines.len();
        let mut i: usize = 0;
        let mut after_header = false;
        proof {
            lemma_header_prefix_bound(ls, 0);
        }
        while i < n
            invariant
                n == lines@.len(),
                i <= n,
                ls == lines_from(v@, 0),
                hp == header_prefix(ls, 0),
                ls.len() == n,
                forall|t: int| 0 <= t < n ==> ls[t] == lines@[t]@,
                0 <= hp <= n,
                after_header <==> i > hp,
                before@ == join_part(ls, 0, if i <= hp {
                    i as int
                } else {
                    hp
                }),
                after@ == join_part(ls, if i <= hp {
                    i as int
                } else {
                    hp
                }, i as int),
            decreases n - i,
        {
            let line = &lines[i];
            let header = is_header_line(line);
            proof {
                lemma_header_prefix(ls, 0, i as int);
            }
            let mut lc = crate::post_processor::header_link::sub_chars(line, 0, line.len());
            proof {
                assert(line@.subrange(0, line@.len() as int) =~= line@);
                assert(lc@ == ls[i as int]);
            }
            if !header || after_header {
                after_header = true;
                let ghost a0 = after@;
                after.append(&mut lc);
                after.push('\n');
                proof {
                    lemma_join_part_snoc(ls, if i <= hp {
                        i as int
                    } else {
                        hp
                    }, i as int);
                    assert(after@ =~= a0 + ls[i as int] + seq!['\n']);
                }
            } else {
                let ghost b0 = before@;
                before.append(&mut lc);
                before.push('\n');
                proof {
                    lemma_join_part_snoc(ls, 0, i as int);
                    assert(before@ =~= b0 + ls[i as int] + seq!['\n']);
                    assert(join_part(ls, i + 1, i + 1) =~= Seq::<char>::empty());
                }
            }
            i += 1;
        }
        (chars_to_string(&before), chars_to_string(&after))
    }
}

/// A prefix of header lines extends one line at a time.
proof fn lemma_header_prefix(ls: Seq<Seq<char>>, t: int, i: int)
    requires
        0 <= t <= i <= ls.len(),
    ensures
        header_prefix(ls, t) >= i + 1 <==> (header_prefix(ls, t) >= i && i < ls.len()
            && header_line(ls[i])),
        header_prefix(ls, t) >= t,
    decreases i - t,
{
    if t < ls.len() && header_line(ls[t]) {
        if t < i {
            lemma_header_prefix(ls, t + 1, i);
        } else {
            lemma_header_prefix_bound(ls, t + 1);
        }
    }
}

/// The header prefix never passes the end of the lines.
proof fn lemma_header_prefix_bound(ls: Seq<Seq<char>>, t: int)
    requires
        0 <= t <= ls.len(),
    ensures
        t <= header_prefix(ls, t) <= ls.len(),
    decreases ls.len() - t,
{
    if t < ls.len() && header_line(ls[t]) {
        lemma_header_prefix_bound(ls, t + 1);
    }
}

/// Joining one more line appends it and a line feed.
proof fn lemma_join_part_snoc(ls: Seq<Seq<char>>, lo: int, hi: int)
    requires
        0 <= lo <= hi < ls.len(),
    ensures
        join_part(ls, lo, hi + 1) == join_part(ls, lo, hi) + ls[hi] + seq!['\n'],
    decreases hi - lo,
{
    if lo < hi {
        lemma_join_part_snoc(ls, lo + 1, hi);
        assert(join_part(ls, lo, hi + 1) =~= join_part(ls, lo, hi) + ls[hi] + seq!['\n']);
    } else {
        assert(join_part(ls, hi + 1, hi + 1) =~= Seq::<char>::empty());
        assert(join_part(ls, lo, hi + 1) =~= ls[hi] + seq!['\n']);
        assert(join_part(ls, lo, hi) + ls[hi] + seq!['\n'] =~= ls[hi] + seq!['\n']);
    }
}

/// Executable header-line test.
fn is_header_line(l: &Vec<char>) -> (r: bool)
    ensures
        r == header_line(l@),
{
    let n = l.len();
    let mut t: usize = 0;
    while t < n && ws_check(l[t])
        invariant
            n == l@.len(),
            0 <= t <= n,
            skip_ws(l@, 0) == skip_ws(l@, t as int),
        decreases n - t,
    {
        t += 1;
    }
    if t >= n {
        true
    } else {
        n - t >= 3 && l[t] == '#' && l[t + 1] == '!' && l[t + 2] == '['
    }
}

/// Split a code body into its lines.
fn split_lines(v: &Vec<char>) -> (r: Vec<Vec<char>>)
    ensures
        r@.len() == lines_from(v@, 0).len(),
        forall|t: int| 0 <= t < r@.len() ==> r@[t]@ == lines_from(v@, 0)[t],
{
    let n = v.len();
    let mut r: Vec<Vec<char>> = Vec::new();
    let mut t: usize = 0;
    while t < n
        invariant
            n == v@.len(),
            0 <= t <= n,
            lines_from(v@, 0) == r@.map_values(|l: Vec<char>| l@) + lines_from(v@, t as int),
        decreases n - t,
    {
        let ghost r0 = r@;
        match find_char(v, t, '\n') {
            Some(p) => {
                proof {
                    lemma_find_char_from(v@, t as int, '\n');
                }
                let mut line = crate::post_processor::header_link::sub_chars(v, t, p);
                if line.len() > 0 && line[line.len() - 1] == '\r' {
                    line.pop();
                    proof {
                        assert(line@ =~= strip_cr(v@.subrange(t as int, p as int)));
                    }
                }
                proof {
                    assert(line@ == strip_cr(v@.subrange(t as int, p as int)));
                }
                r.push(line);
                proof {
                    assert(r@.map_values(|l: Vec<char>| l@) =~= r0.map_values(
                        |l: Vec<char>| l@,
                    ).push(strip_cr(v@.subrange(t as int, p as int))));
                    assert(lines_from(v@, 0) =~= r@.map_values(|l: Vec<char>| l@) + lines_from(
                        v@,
                        p + 1,
                    ));
                }
                t = p + 1;
            },
            None => {
                let line = crate::post_processor::header_link::sub_chars(v, t, n);
                r.push(line);
                proof {
                    assert(r@.map_values(|l: Vec<char>| l@) =~= r0.map_values(
                        |l: Vec<char>| l@,
                    ).push(v@.subrange(t as int, n as int)));
                    assert(lines_from(v@, 0) =~= r@.map_values(|l: Vec<char>| l@) + lines_from(
                        v@,
                        n as int,
                    ));
                }
                t = n;
            },
        }
    }
    proof {
        assert(lines_from(v@, n as int) =~= Seq::<Seq<char>>::empty());
        assert(lines_from(v@, 0) =~= r@.map_values(|l: Vec<char>| l@));
        assert(forall|u: int|
            0 <= u < r@.len() ==> r@.map_values(|l: Vec<char>| l@)[u] == r@[u]@);
    }
    r
}

} // verus!

verus! {

/// Everything a successful match picks out lies in order inside the page.
pub proof fn lemma_play_bounds(s: Seq<char>, i: int, x: int)
    requires
        0 <= i,
        0 <= x <= 1,
        play_try(s, i, x) is Some,
    ensures
        ({
            let qge = play_try(s, i, x)->Some_0;
            i + 5 + x + 7 < qge.0 && qge.0 < qge.1 && qge.1 < qge.2 && qge.2 + 7 <= s.len()
        }),
{
    let p = i + 5 + x;
    lemma_find_char_from(s, p + 7, '"');
    let q = find_char_from(s, p + 7, '"')->Some_0;
    lemma_find_char_from(s, q + 1, '>');
    let g = find_char_from(s, q + 1, '>')->Some_0;
    lemma_find_seq_from(s, g + 1, code_close());
}

/// What one matched block becomes: unchanged when it does not qualify,
/// wrapped verbatim when it already forms a runnable unit or is editable,
/// else split and reassembled around a hidden entry point.
pub open spec fn play_replacement(s: Seq<char>, i: int, editable: bool) -> Seq<char> {
    let x = play_x(s, i);
    let qge = play_try(s, i, x)->Some_0;
    let classes = s.subrange(i + 5 + x + 7, qge.0);
    let text = s.subrange(i, qge.2 + 7);
    let code = s.subrange(qge.1 + 1, qge.2);
    if !play_qualifies(classes) {
        text
    } else if play_verbatim(text, classes, editable) {
        "<pre class=\"playpen\">"@ + text + "</pre>"@
    } else {
        "<pre class=\"playpen\"><code class=\""@ + classes
            + "\">\n# #![allow(unused_variables)]\n"@ + partition_before(code) + "#fn main() {\n"@
            + partition_after(code) + "#}</code></pre>"@
    }
}

/// The page from `i` on with every matched code block rewritten.
pub open spec fn play_rewrite_from(s: Seq<char>, i: int, editable: bool) -> Seq<char>
    decreases s.len() - i,
    when 0 <= i <= s.len()
    via play_rewrite_from_dec
{
    if i >= s.len() {
        Seq::empty()
    } else if play_match_at(s, i) {
        play_replacement(s, i, editable) + play_rewrite_from(
            s,
            play_try(s, i, play_x(s, i))->Some_0.2 + 7,
            editable,
        )
    } else {
        seq![s[i]] + play_rewrite_from(s, i + 1, editable)
    }
}

#[via_fn]
proof fn play_rewrite_from_dec(s: Seq<char>, i: int, editable: bool) {
    if 0 <= i < s.len() && play_match_at(s, i) {
        lemma_play_bounds(s, i, play_x(s, i));
    }
}

/// Executable attempt to match a playground block at `i` with gap `x`.
fn play_try_exec(v: &Vec<char>, i: usize, x: usize) -> (r: Option<(usize, usize, usize)>)
    requires
        x <= 1,
        i <= v@.len(),
    ensures
        match r {
            Some(t) => play_try(v@, i as int, x as int) == Some(
                (t.0 as int, t.1 as int, t.2 as int),
            ),
            None => play_try(v@, i as int, x as int) is None,
        },
{
    let n = v.len();
    if n - i < x + 12 {
        return None;
    }
    let p = i + x + 5;
    let lit = v[p] == 'c' && v[p + 1] == 'l' && v[p + 2] == 'a' && v[p + 3] == 's' && v[p + 4]
        == 's' && v[p + 5] == '=' && v[p + 6] == '"';
    if !lit {
        return None;
    }
    if x == 1 && (i + 5 >= n || v[i + 5] == '>') {
        return None;
    }
    match find_char(v, p + 7, '"') {
        Some(q) => {
            proof {
                lemma_find_char_from(v@, p + 7, '"');
            }
            if q == p + 7 {
                return None;
            }
            match find_char(v, q + 1, '>') {
                Some(g) => {
                    proof {
                        lemma_find_char_from(v@, q + 1, '>');
                    }
                    let mut close: Vec<char> = Vec::new();
                    close.push('<');
                    close.push('/');
                    close.push('c');
                    close.push('o');
                    close.push('d');
                    close.push('e');
                    close.push('>');
                    proof {
                        assert(close@ =~= code_close());
                    }
                    match find_seq(v, g + 1, &close) {
                        Some(e) => Some((q, g, e)),
                        None => None,
                    }
                },
                None => None,
            }
        },
        None => None,
    }
}

impl PostProcessor for PlaypenProcessor {
    /// Every runnable code block is wrapped for the playground; everything
    /// else passes through byte for byte. This stage never fails.
    open spec fn transform_spec(&self, html: Seq<char>) -> Option<Seq<char>> {
        Some(play_rewrite_from(html, 0, self.editable))
    }

    #[verifier::rlimit(100)]
    fn execute(&self, html: &str) -> (r: Result<String, StageFailure>) {
        let v = str_to_chars(html);
        let n = v.len();
        let mut out: Vec<char> = Vec::new();
        let mut i: usize = 0;
        proof {
            assert(out@ + play_rewrite_from(v@, 0, self.editable) =~= play_rewrite_from(
                v@,
                0,
                self.editable,
            ));
        }
        while i < n
            invariant
                n == v@.len(),
                i <= n,
                v@ == html@,
                play_rewrite_from(v@, 0, self.editable) == out@ + play_rewrite_from(
                    v@,
                    i as int,
                    self.editable,
                ),
            decreases n - i,
        {
            let open_here = n - i >= 5 && v[i] == '<' && v[i + 1] == 'c' && v[i + 2] == 'o'
                && v[i + 3] == 'd' && v[i + 4] == 'e';
            let mut pieces: Option<(usize, usize, usize)> = None;
            let mut x: usize = 0;
            if open_here {
                match play_try_exec(&v, i, 1) {
                    Some(t) => {
                        pieces = Some(t);
                        x = 1;
                    },
                    None => {
                        pieces = play_try_exec(&v, i, 0);
                    },
                }
            }
            match pieces {
                Some((q, g, e)) => {
                    proof {
                        assert(x as int == play_x(v@, i as int));
                        assert(play_match_at(v@, i as int));
                        lemma_play_bounds(v@, i as int, x as int);
                    }
                    let classes = crate::post_processor::header_link::sub_chars(
                        &v,
                        i + x + 12,
                        q,
                    );
                    let text = crate::post_processor::header_link::sub_chars(&v, i, e + 7);
                    let lr = str_to_chars("language-rust");
                    let ig = str_to_chars("ignore");
                    let np = str_to_chars("noplaypen");
                    let mr = str_to_chars("mdbook-runnable");
                    let qualifies = (contains_chars(&classes, &lr) && !contains_chars(
                        &classes,
                        &ig,
                    ) && !contains_chars(&classes, &np)) || contains_chars(&classes, &mr);
                    let ghost out0 = out@;
                    if !qualifies {
                        let mut tc = text;
                        out.append(&mut tc);
                        proof {
                            assert(out@ =~= out0 + play_replacement(
                                v@,
                                i as int,
                                self.editable,
                            ));
                        }
                    } else {
                        let fm = str_to_chars("fn main");
                        let qm = str_to_chars("quick_main!");
                        let em = str_to_chars("editable");
                        let verbatim = (self.editable && contains_chars(&classes, &em))
                            || contains_chars(&text, &fm) || contains_chars(&text, &qm);
                        if verbatim {
                            let mut l1 = str_to_chars("<pre class=\"playpen\">");
                            out.append(&mut l1);
                            let mut tc = text;
                            out.append(&mut tc);
                            let mut l2 = str_to_chars("</pre>");
                            out.append(&mut l2);
                            proof {
                                assert(out@ =~= out0 + play_replacement(
                                    v@,
                                    i as int,
                                    self.editable,
                                ));
                            }
                        } else {
                            let code = crate::post_processor::header_link::sub_chars(
                                &v,
                                g + 1,
                                e,
                            );
                            let code_str = chars_to_string(&code);
                            let (before, after) = PlaypenProcessor::partition_source(
                                code_str.as_str(),
                            );
                            let mut l1 = str_to_chars("<pre class=\"playpen\"><code class=\"");
                            out.append(&mut l1);
                            let mut cc = classes;
                            out.append(&mut cc);
                            let mut l2 = str_to_chars("\">\n# #![allow(unused_variables)]\n");
                            out.append(&mut l2);
                            let mut bc = str_to_chars(before.as_str());
                            out.append(&mut bc);
                            let mut l3 = str_to_chars("#fn main() {\n");
                            out.append(&mut l3);
                            let mut ac = str_to_chars(after.as_str());
                            out.append(&mut ac);
                            let mut l4 = str_to_chars("#}</code></pre>");
                            out.append(&mut l4);
                            proof {
                                assert(out@ =~= out0 + play_replacement(
                                    v@,
                                    i as int,
                                    self.editable,
                                ));
                            }
                        }
                    }
                    proof {
                        assert(out@ + play_rewrite_from(v@, e + 7, self.editable) =~= out0
                            + play_rewrite_from(v@, i as int, self.editable));
                    }
                    i = e + 7;
                },
                None => {
                    let ghost out0 = out@;
                    out.push(v[i]);
                    proof {
                        assert(!play_match_at(v@, i as int));
                        assert(out@ =~= out0 + seq![v@[i as int]]);
                        assert(out@ + play_rewrite_from(v@, i + 1, self.editable) =~= out0
                            + play_rewrite_from(v@, i as int, self.editable));
                    }
                    i += 1;
                },
            }
        }
        proof {
            assert(play_rewrite_from(v@, n as int, self.editable) =~= Seq::<char>::empty());
            assert(out@ =~= play_rewrite_from(v@, 0, self.editable));
        }
        Ok(chars_to_string(&out))
    }
}

/// Every line of `ls` from `t` on being a header line pushes the header
/// prefix to the end.
proof fn lemma_header_prefix_all(ls: Seq<Seq<char>>, t: int)
    requires
        0 <= t <= ls.len(),
        forall|u: int| t <= u < ls.len() ==> header_line(#[trigger] ls[u]),
    ensures
        header_prefix(ls, t) == ls.len(),
    decreases ls.len() - t,
{
    if t < ls.len() {
        lemma_header_prefix_all(ls, t + 1);
    }
}

/// LAW: a body whose every line is blank or an inner attribute line has an
/// empty body partition, and a header partition that is the whole body with
/// each line re-terminated by a line feed.
pub proof fn lemma_partition_all_header(s: Seq<char>)
    requires
        forall|t: int|
            0 <= t < lines_from(s, 0).len() ==> header_line(#[trigger] lines_from(s, 0)[t]),
    ensures
        partition_after(s) == Seq::<char>::empty(),
        partition_before(s) == join_part(lines_from(s, 0), 0, lines_from(s, 0).len() as int),
{
    let ls = lines_from(s, 0);
    lemma_header_prefix_all(ls, 0);
}

/// LAW: a page whose matched code blocks all lack the runnable markers is
/// returned byte for byte.
pub proof fn lemma_play_rewrite_no_qualify(s: Seq<char>, i: int, editable: bool)
    requires
        0 <= i <= s.len(),
        forall|t: int|
            0 <= t < s.len() && #[trigger] play_match_at(s, t) ==> !play_qualifies(
                play_classes(s, t),
            ),
    ensures
        play_rewrite_from(s, i, editable) == s.skip(i),
    decreases s.len() - i,
{
    if i >= s.len() {
        assert(s.skip(i) =~= Seq::<char>::empty());
    } else if play_match_at(s, i) {
        lemma_play_bounds(s, i, play_x(s, i));
        let e = play_try(s, i, play_x(s, i))->Some_0.2;
        lemma_play_rewrite_no_qualify(s, e + 7, editable);
        assert(play_rewrite_from(s, i, editable) =~= s.skip(i));
    } else {
        lemma_play_rewrite_no_qualify(s, i + 1, editable);
        assert(play_rewrite_from(s, i, editable) =~= s.skip(i));
    }
}

} // verus!
