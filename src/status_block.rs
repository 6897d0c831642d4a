//! The status-block editor: finds the status section of a markdown or reStructuredText
//! document and inserts, replaces or prunes lines in it, leaving the rest of the document
//! as it was (up to dropped blank-line runs and pruned lines).
use vstd::prelude::*;
use crate::text::{
    all_space, chars_of, is_space, lines_of, occurs_at, occurs_at_exec, push_all, space_char,
    split_lines, string_of, views,
};

verus! {

/// The document dialects, told apart by the file name's suffix: `.md`, `.rst`, or another.
#[derive(Clone, Copy, Debug, PartialEq, Eq, Structural)]
pub enum Dialect {
    Markdown,
    Rst,
    Other,
}

pub open spec fn ends_with(s: Seq<char>, suffix: Seq<char>) -> bool {
    s.len() >= suffix.len() && s.subrange(s.len() - suffix.len(), s.len() as int) == suffix
}

pub open spec fn dialect_of(name: Seq<char>) -> Dialect {
    if ends_with(name, seq!['.', 'm', 'd']) {
        Dialect::Markdown
    } else if ends_with(name, seq!['.', 'r', 's', 't']) {
        Dialect::Rst
    } else {
        Dialect::Other
    }
}

fn ends_with_exec(s: &[char], suffix: &[char]) -> (r: bool)
    ensures
        r == ends_with(s@, suffix@),
{
    if s.len() < suffix.len() {
        false
    } else {
        occurs_at_exec(s, suffix, s.len() - suffix.len())
    }
}

pub fn dialect_of_name(name: &str) -> (r: Dialect)
    ensures
        r == dialect_of(name@),
{
    let n = chars_of(name);
    let md = vec!['.', 'm', 'd'];
    let rst = vec!['.', 'r', 's', 't'];
    assert(md@ == seq!['.', 'm', 'd']);
    assert(rst@ == seq!['.', 'r', 's', 't']);
    if ends_with_exec(&n, &md) {
        Dialect::Markdown
    } else if ends_with_exec(&n, &rst) {
        Dialect::Rst
    } else {
        Dialect::Other
    }
}

pub open spec fn lead(c: char, hash: bool) -> bool {
    if hash {
        c == '#'
    } else {
        is_space(c)
    }
}

/// `s` without its leading white space (`hash` false) or its leading `#` characters.
pub open spec fn drop_lead(s: Seq<char>, hash: bool) -> Seq<char>
    decreases s.len(),
{
    if s.len() > 0 && lead(s[0], hash) {
        drop_lead(s.drop_first(), hash)
    } else {
        s
    }
}

/// `s` without its trailing white space.
pub open spec fn trim_end(s: Seq<char>) -> Seq<char>
    decreases s.len(),
{
    if s.len() > 0 && is_space(s.last()) {
        trim_end(s.drop_last())
    } else {
        s
    }
}

pub open spec fn trim(s: Seq<char>) -> Seq<char> {
    trim_end(drop_lead(s, false))
}

/// A markdown heading: optional white space, one or more `#`, one or more white space
/// characters; the result is the text after them.
pub open spec fn md_heading_text(line: Seq<char>) -> Option<Seq<char>> {
    let t = drop_lead(line, false);
    let u = drop_lead(t, true);
    let v = drop_lead(u, false);
    if u.len() < t.len() && v.len() < u.len() {
        Some(v)
    } else {
        None
    }
}

/// A markdown line that opens a section: a heading with some text.
pub open spec fn is_md_section(line: Seq<char>) -> bool {
    md_heading_text(line) is Some && md_heading_text(line)->0.len() > 0
}

/// A markdown heading whose text is `heading`, up to trailing white space.
pub open spec fn is_md_heading_of(line: Seq<char>, heading: Seq<char>) -> bool {
    md_heading_text(line) is Some && trim_end(md_heading_text(line)->0) == heading
}

/// A reStructuredText section delimiter: after trimming, one or more `*`, or one or more `#`.
pub open spec fn is_rst_delimiter(line: Seq<char>) -> bool {
    let t = trim(line);
    t.len() > 0 && ((forall|i: int| 0 <= i < t.len() ==> t[i] == '*') || (forall|i: int|
        0 <= i < t.len() ==> t[i] == '#'))
}

/// A reStructuredText title line that reads `heading`, up to surrounding white space.
pub open spec fn is_rst_heading_of(line: Seq<char>, heading: Seq<char>) -> bool {
    trim(line) == heading
}

/// A line that begins, after white space, with `p`.
pub open spec fn starts_after_space(line: Seq<char>, p: Seq<char>) -> bool {
    exists|k: int| 0 <= k <= line.len() && all_space(line.subrange(0, k)) && occurs_at(line, p, k)
}

/// A line that begins, after white space, with one of `prunes`.
pub open spec fn is_pruned(line: Seq<char>, prunes: Seq<Seq<char>>) -> bool {
    exists|j: int| 0 <= j < prunes.len() && starts_after_space(line, #[trigger] prunes[j])
}

/// Whether `line` closes the status block in the given dialect.
pub open spec fn closes_block(d: Dialect, line: Seq<char>) -> bool {
    match d {
        Dialect::Markdown => is_md_section(line),
        Dialect::Rst => is_rst_delimiter(line),
        Dialect::Other => false,
    }
}

/// What the editor is asked to do.
pub struct EditParams {
    pub dialect: Dialect,
    pub heading: Seq<char>,
    pub inject: Seq<char>,
    pub start_of_block: bool,
    pub replace_block: bool,
    pub prunes: Seq<Seq<char>>,
}

/// Where the editor stands after some lines.
pub struct EditState {
    pub out: Seq<char>,
    pub in_block: bool,
    pub found_heading: bool,
    pub after_block: bool,
    pub last: Seq<char>,
}

pub open spec fn nl() -> Seq<char> {
    seq!['\n']
}

/// The text placed right after the heading: the injected line for the start and replace
/// modes, nothing for an append.
pub open spec fn head_insert(p: EditParams) -> Seq<char> {
    if p.replace_block {
        nl() + p.inject + nl() + nl()
    } else if p.start_of_block {
        nl() + p.inject + nl()
    } else {
        seq![]
    }
}

/// The text placed before the line that closes the block: the injected line for an append.
pub open spec fn tail_insert(p: EditParams) -> Seq<char> {
    if p.start_of_block || p.replace_block {
        seq![]
    } else {
        p.inject + nl() + nl()
    }
}

/// Whether `line` opens the status block, given whether the heading was seen before.
pub open spec fn opens_block(p: EditParams, found: bool, line: Seq<char>) -> bool {
    match p.dialect {
        Dialect::Markdown => is_md_heading_of(line, p.heading),
        Dialect::Rst => found && !is_rst_heading_of(line, p.heading),
        Dialect::Other => false,
    }
}

/// One line through the editor. A pruned line, and an empty line after a dropped or empty
/// line, leave no trace. Inside the block, replacing drops the old content; the line that
/// closes the block gets the appended text before it.
pub open spec fn edit_step(p: EditParams, st: EditState, line: Seq<char>) -> EditState {
    if is_pruned(line, p.prunes) || (st.last.len() == 0 && line.len() == 0) {
        st
    } else if st.after_block {
        EditState { out: st.out + line + nl(), last: line, ..st }
    } else if st.in_block {
        if closes_block(p.dialect, line) {
            EditState {
                out: st.out + tail_insert(p) + line + nl(),
                after_block: true,
                last: line,
                ..st
            }
        } else if p.replace_block {
            st
        } else {
            EditState { out: st.out + line + nl(), last: line, ..st }
        }
    } else {
        let opens = opens_block(p, st.found_heading, line);
        EditState {
            out: st.out + line + nl() + (if opens {
                head_insert(p)
            } else {
                seq![]
            }),
            in_block: opens,
            found_heading: st.found_heading || (p.dialect == Dialect::Rst && is_rst_heading_of(
                line,
                p.heading,
            )),
            last: line,
            ..st
        }
    }
}

pub open spec fn initial_state() -> EditState {
    EditState { out: seq![], in_block: false, found_heading: false, after_block: false, last: seq![] }
}

/// The editor's state after the lines `lines`.
pub open spec fn edit_run(p: EditParams, lines: Seq<Seq<char>>) -> EditState
    decreases lines.len(),
{
    if lines.len() == 0 {
        initial_state()
    } else {
        edit_step(p, edit_run(p, lines.drop_last()), lines.last())
    }
}

pub open spec fn string_views(v: Seq<String>) -> Seq<Seq<char>> {
    v.map_values(|s: String| s@)
}

/// The document `content` of the file `name` after the edit.
pub open spec fn rewritten(
    name: Seq<char>,
    content: Seq<char>,
    heading: Seq<char>,
    inject: Seq<char>,
    start_of_block: bool,
    replace_block: bool,
    prunes: Seq<Seq<char>>,
) -> Seq<char> {
    let p = EditParams {
        dialect: dialect_of(name),
        heading,
        inject,
        start_of_block,
        replace_block,
        prunes,
    };
    edit_run(p, lines_of(content)).out
}

fn lead_exec(c: char, hash: bool) -> (r: bool)
    ensures
        r == lead(c, hash),
{
    if hash {
        c == '#'
    } else {
        space_char(c)
    }
}

fn skip_lead(s: &[char], i: usize, hash: bool) -> (j: usize)
    requires
        i <= s@.len(),
    ensures
        i <= j <= s@.len(),
        s@.subrange(j as int, s@.len() as int) == drop_lead(
            s@.subrange(i as int, s@.len() as int),
            hash,
        ),
{
    let mut j = i;
    while j < s.len() && lead_exec(s[j], hash)
        invariant
            i <= j <= s@.len(),
            drop_lead(s@.subrange(j as int, s@.len() as int), hash) == drop_lead(
                s@.subrange(i as int, s@.len() as int),
                hash,
            ),
        decreases s@.len() - j,
    {
        assert(s@.subrange(j as int, s@.len() as int).drop_first() =~= s@.subrange(
            j + 1,
            s@.len() as int,
        ));
        j = j + 1;
    }
    j
}

/// End of `s[from..]` with its trailing white space taken off.
fn trim_end_index(s: &[char], from: usize) -> (e: usize)
    requires
        from <= s@.len(),
    ensures
        from <= e <= s@.len(),
        s@.subrange(from as int, e as int) == trim_end(s@.subrange(from as int, s@.len() as int)),
{
    let mut e = s.len();
    while e > from && space_char(s[e - 1])
        invariant
            from <= e <= s@.len(),
            trim_end(s@.subrange(from as int, e as int)) == trim_end(
                s@.subrange(from as int, s@.len() as int),
            ),
        decreases e,
    {
        assert(s@.subrange(from as int, e as int).drop_last() =~= s@.subrange(
            from as int,
            e - 1,
        ));
        e = e - 1;
    }
    e
}

fn slice_eq(s: &[char], from: usize, to: usize, t: &[char]) -> (r: bool)
    requires
        from <= to <= s@.len(),
    ensures
        r == (s@.subrange(from as int, to as int) == t@),
{
    if to - from != t.len() {
        return false;
    }
    let r = occurs_at_exec(s, t, from);
    r
}

/// Markdown: where the heading text starts, if `line` is a heading.
fn md_heading_start(line: &[char]) -> (r: Option<usize>)
    ensures
        r is Some <==> md_heading_text(line@) is Some,
        r is Some ==> r->0 <= line@.len() && line@.subrange(r->0 as int, line@.len() as int)
            == md_heading_text(line@)->0,
{
    proof {
        assert(line@.subrange(0, line@.len() as int) =~= line@);
    }
    let a = skip_lead(line, 0, false);
    let b = skip_lead(line, a, true);
    let c = skip_lead(line, b, false);
    if a < b && b < c {
        Some(c)
    } else {
        None
    }
}

fn md_section_exec(line: &[char]) -> (r: bool)
    ensures
        r == is_md_section(line@),
{
    match md_heading_start(line) {
        Some(c) => c < line.len(),
        None => false,
    }
}

fn md_heading_of_exec(line: &[char], heading: &[char]) -> (r: bool)
    ensures
        r == is_md_heading_of(line@, heading@),
{
    match md_heading_start(line) {
        Some(c) => {
            let e = trim_end_index(line, c);
            slice_eq(line, c, e, heading)
        },
        None => false,
    }
}

/// Where the trimmed text of `line` starts and ends.
fn trim_bounds(line: &[char]) -> (r: (usize, usize))
    ensures
        r.0 <= r.1 <= line@.len(),
        line@.subrange(r.0 as int, r.1 as int) == trim(line@),
{
    proof {
        assert(line@.subrange(0, line@.len() as int) =~= line@);
    }
    let a = skip_lead(line, 0, false);
    let e = trim_end_index(line, a);
    (a, e)
}

fn rst_heading_of_exec(line: &[char], heading: &[char]) -> (r: bool)
    ensures
        r == is_rst_heading_of(line@, heading@),
{
    let (a, e) = trim_bounds(line);
    slice_eq(line, a, e, heading)
}

fn all_same(s: &[char], from: usize, to: usize, c: char) -> (r: bool)
    requires
        from <= to <= s@.len(),
    ensures
        r == forall|i: int| 0 <= i < to - from ==> s@.subrange(from as int, to as int)[i] == c,
{
    let mut i = from;
    while i < to
        invariant
            from <= i <= to <= s@.len(),
            forall|k: int| from <= k < i ==> s@[k] == c,
        decreases to - i,
    {
        if s[i] != c {
            assert(s@.subrange(from as int, to as int)[i - from] != c);
            return false;
        }
        i = i + 1;
    }
    true
}

pub fn rst_delimiter_exec(line: &[char]) -> (r: bool)
    ensures
        r == is_rst_delimiter(line@),
{
    let (a, e) = trim_bounds(line);
    a < e && (all_same(line, a, e, '*') || all_same(line, a, e, '#'))
}

fn starts_after_space_exec(line: &[char], p: &[char]) -> (r: bool)
    ensures
        r == starts_after_space(line@, p@),
{
    let mut k: usize = 0;
    loop
        invariant
            k <= line@.len(),
            all_space(line@.subrange(0, k as int)),
            forall|m: int| 0 <= m < k ==> !occurs_at(line@, p@, m),
        decreases line@.len() - k,
    {
        if occurs_at_exec(line, p, k) {
            return true;
        }
        if k < line.len() && space_char(line[k]) {
            assert(line@.subrange(0, k + 1) =~= line@.subrange(0, k as int).push(line@[k as int]));
            k = k + 1;
        } else {
            proof {
                assert forall|m: int|
                    0 <= m <= line@.len() && all_space(line@.subrange(0, m)) implies !occurs_at(
                    line@,
                    p@,
                    m,
                ) by {
                    if m > k {
                        assert(line@.subrange(0, m)[k as int] == line@[k as int]);
                    }
                }
            }
            return false;
        }
    }
}

fn pruned_exec(line: &[char], prunes: &Vec<Vec<char>>) -> (r: bool)
    ensures
        r == is_pruned(line@, views(prunes@)),
{
    let mut j: usize = 0;
    while j < prunes.len()
        invariant
            j <= prunes@.len(),
            forall|m: int| 0 <= m < j ==> !starts_after_space(line@, #[trigger] prunes@[m]@),
        decreases prunes@.len() - j,
    {
        if starts_after_space_exec(line, &prunes[j]) {
            assert(views(prunes@)[j as int] == prunes@[j as int]@);
            return true;
        }
        j = j + 1;
    }
    assert forall|m: int| 0 <= m < views(prunes@).len() implies !starts_after_space(
        line@,
        #[trigger] views(prunes@)[m],
    ) by {
        assert(views(prunes@)[m] == prunes@[m]@);
    }
    false
}

fn closes_block_exec(d: Dialect, line: &[char]) -> (r: bool)
    ensures
        r == closes_block(d, line@),
{
    match d {
        Dialect::Markdown => md_section_exec(line),
        Dialect::Rst => rst_delimiter_exec(line),
        Dialect::Other => false,
    }
}

/// Rewrites the status section, headed `heading`, of the document `content` held in the
/// file `name`. The injected line goes right after the heading (`start_of_block`), replaces
/// the section's content (`replace_block`), or else goes at the end of the section. Lines
/// that begin, after white space, with one of `prunes` are dropped everywhere, and so is
/// each empty line that follows an empty line. A document whose status section is not
/// found comes back with only those lines dropped.
pub fn inject_text_in_status_block_of_a_record(
    name: &str,
    content: &str,
    heading: &str,
    inject: &str,
    start_of_block: bool,
    replace_block: bool,
    prunes: &Vec<String>,
) -> (r: String)
    ensures
        r@ == rewritten(
            name@,
            content@,
            heading@,
            inject@,
            start_of_block,
            replace_block,
            string_views(prunes@),
        ),
{
    let dialect = dialect_of_name(name);
    let heading_v = chars_of(heading);
    let inject_v = chars_of(inject);
    let mut prune_v: Vec<Vec<char>> = Vec::new();
    let mut j: usize = 0;
    while j < prunes.len()
        invariant
            j <= prunes@.len(),
            views(prune_v@) =~= string_views(prunes@).subrange(0, j as int),
        decreases prunes@.len() - j,
    {
        let ghost before = prune_v@;
        prune_v.push(chars_of(prunes[j].as_str()));
        assert(views(prune_v@) =~= views(before).push(prunes@[j as int]@));
        assert(string_views(prunes@).subrange(0, j + 1) =~= string_views(prunes@).subrange(
            0,
            j as int,
        ).push(prunes@[j as int]@));
        j = j + 1;
    }
    assert(string_views(prunes@).subrange(0, prunes@.len() as int) =~= string_views(prunes@));
    let ghost p = EditParams {
        dialect: dialect,
        heading: heading_v@,
        inject: inject_v@,
        start_of_block,
        replace_block,
        prunes: views(prune_v@),
    };
    let content_v = chars_of(content);
    let lines = split_lines(&content_v);
    let mut out: Vec<char> = Vec::new();
    let mut in_block = false;
    let mut found_heading = false;
    let mut after_block = false;
    let mut last: Vec<char> = Vec::new();
    let mut i: usize = 0;
    while i < lines.len()
        invariant
            i <= lines@.len(),
            p.dialect == dialect,
            p.heading == heading_v@,
            p.inject == inject_v@,
            p.start_of_block == start_of_block,
            p.replace_block == replace_block,
            p.prunes == views(prune_v@),
            edit_run(p, views(lines@).subrange(0, i as int)) == (EditState {
                out: out@,
                in_block,
                found_heading,
                after_block,
                last: last@,
            }),
        decreases lines@.len() - i,
    {
        let line = &lines[i];
        assert(views(lines@).subrange(0, i + 1).drop_last() =~= views(lines@).subrange(
            0,
            i as int,
        ));
        assert(views(lines@).subrange(0, i + 1).last() == line@);
        if pruned_exec(line, &prune_v) || (last.len() == 0 && line.len() == 0) {
        } else if after_block {
            push_all(&mut out, line);
            out.push('\n');
            last = line.clone();
        } else if in_block {
            if closes_block_exec(dialect, line) {
                if !(start_of_block || replace_block) {
                    push_all(&mut out, &inject_v);
                    out.push('\n');
                    out.push('\n');
                }
                push_all(&mut out, line);
                out.push('\n');
                after_block = true;
                last = line.clone();
            } else if replace_block {
            } else {
                push_all(&mut out, line);
                out.push('\n');
                last = line.clone();
            }
        } else {
            let rst_heading = match dialect {
                Dialect::Rst => rst_heading_of_exec(line, &heading_v),
                _ => false,
            };
            let opens = match dialect {
                Dialect::Markdown => md_heading_of_exec(line, &heading_v),
                Dialect::Rst => found_heading && !rst_heading,
                Dialect::Other => false,
            };
            push_all(&mut out, line);
            out.push('\n');
            if opens {
                if replace_block || start_of_block {
                    out.push('\n');
                    push_all(&mut out, &inject_v);
                    out.push('\n');
                    if replace_block {
                        out.push('\n');
                    }
                }
            }
            in_block = opens;
            found_heading = found_heading || rst_heading;
            last = line.clone();
        }
        proof {
            let st = edit_step(p, edit_run(p, views(lines@).subrange(0, i as int)), line@);
            assert(out@ =~= st.out);
            assert(last@ =~= st.last);
        }
        i = i + 1;
    }
    assert(views(lines@).subrange(0, lines@.len() as int) =~= views(lines@));
    string_of(&out)
}

} // verus!
