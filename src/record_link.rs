//! The label under which one record refers to another: a link to the record's file,
//! showing the record's title where its first heading gives one.
use vstd::prelude::*;
use crate::status_block::{drop_lead, is_rst_delimiter};
use crate::text::{
    chars_of, digit_exec, is_digit, is_space, lines_of, push_all, space_char, split_lines,
    string_of, views,
};

verus! {

pub open spec fn md_format() -> Seq<char> {
    seq!['m', 'd']
}

pub open spec fn rst_format() -> Seq<char> {
    seq!['r', 's', 't']
}

/// `s` without its leading decimal digits.
pub open spec fn drop_digits(s: Seq<char>) -> Seq<char>
    decreases s.len(),
{
    if s.len() > 0 && is_digit(s[0]) {
        drop_digits(s.drop_first())
    } else {
        s
    }
}

/// The title of a markdown title line `# NUMBER. TITLE`: a `#` and a space, one or more
/// digits, an optional `.`, one or more white space characters, then the title.
pub open spec fn md_title(line: Seq<char>) -> Option<Seq<char>> {
    if line.len() >= 2 && line[0] == '#' && line[1] == ' ' {
        let s = line.subrange(2, line.len() as int);
        let r = drop_digits(s);
        if r.len() < s.len() && r.len() > 0 && is_space(r[0]) {
            Some(drop_lead(r, false))
        } else if r.len() > 1 && r[0] == '.' && is_space(r[1]) {
            Some(drop_lead(r.drop_first(), false))
        } else {
            None
        }
    } else {
        None
    }
}

/// The title of the first markdown title line from line `i` on.
pub open spec fn first_md_title(lines: Seq<Seq<char>>, i: int) -> Option<Seq<char>>
    decreases lines.len() - i,
{
    if i < 0 || i >= lines.len() {
        None
    } else if md_title(lines[i]) is Some {
        md_title(lines[i])
    } else {
        first_md_title(lines, i + 1)
    }
}

/// The line after the first reStructuredText delimiter line from line `i` on.
pub open spec fn first_rst_title(lines: Seq<Seq<char>>, i: int) -> Option<Seq<char>>
    decreases lines.len() - i,
{
    if i < 0 || i >= lines.len() {
        None
    } else if is_rst_delimiter(lines[i]) {
        if i + 1 < lines.len() {
            Some(lines[i + 1])
        } else {
            None
        }
    } else {
        first_rst_title(lines, i + 1)
    }
}

pub open spec fn md_link(text: Seq<char>, target: Seq<char>) -> Seq<char> {
    seq!['['] + text + seq![']', '('] + target + seq![')']
}

pub open spec fn rst_link(text: Seq<char>, target: Seq<char>) -> Seq<char> {
    seq![':', 'd', 'o', 'c', ':', '`'] + text + seq![' ', '<'] + target + seq!['>', '`']
}

/// The label when no title is found: the path, as a link in the two known formats.
pub open spec fn path_label(rel: Seq<char>, format: Seq<char>) -> Seq<char> {
    if format == md_format() {
        md_link(rel, rel)
    } else if format == rst_format() {
        rst_link(rel, rel)
    } else {
        rel
    }
}

/// The label of the record at `rel` (relative to the record directory), whose text is
/// `content` when it could be read.
pub open spec fn record_label(rel: Seq<char>, content: Option<Seq<char>>, format: Seq<char>) -> Seq<
    char,
> {
    match content {
        None => path_label(rel, format),
        Some(c) => if format == md_format() {
            match first_md_title(lines_of(c), 0) {
                Some(t) => md_link(t, rel),
                None => path_label(rel, format),
            }
        } else if format == rst_format() {
            match first_rst_title(lines_of(c), 0) {
                Some(t) => rst_link(t, rel),
                None => path_label(rel, format),
            }
        } else {
            path_label(rel, format)
        },
    }
}

fn skip_digits(s: &[char], i: usize) -> (j: usize)
    requires
        i <= s@.len(),
    ensures
        i <= j <= s@.len(),
        s@.subrange(j as int, s@.len() as int) == drop_digits(s@.subrange(i as int, s@.len() as int)),
{
    let mut j = i;
    while j < s.len() && digit_exec(s[j])
        invariant
            i <= j <= s@.len(),
            drop_digits(s@.subrange(j as int, s@.len() as int)) == drop_digits(
                s@.subrange(i as int, s@.len() as int),
            ),
        decreases s@.len() - j,
    {
        assert(s@.subrange(j as int, s@.len() as int).drop_first() =~= s@.subrange(
            j + 1,
            s@.len() as int,
        ));
        j = j + 1;
    }
    j
}

fn skip_spaces(s: &[char], i: usize) -> (j: usize)
    requires
        i <= s@.len(),
    ensures
        i <= j <= s@.len(),
        s@.subrange(j as int, s@.len() as int) == drop_lead(
            s@.subrange(i as int, s@.len() as int),
            false,
        ),
{
    let mut j = i;
    while j < s.len() && space_char(s[j])
        invariant
            i <= j <= s@.len(),
            drop_lead(s@.subrange(j as int, s@.len() as int), false) == drop_lead(
                s@.subrange(i as int, s@.len() as int),
                false,
            ),
        decreases s@.len() - j,
    {
        assert(s@.subrange(j as int, s@.len() as int).drop_first() =~= s@.subrange(
            j + 1,
            s@.len() as int,
        ));
        j = j + 1;
    }
    j
}

/// Where the title of a markdown title line starts.
fn md_title_start(line: &[char]) -> (r: Option<usize>)
    ensures
        r is Some <==> md_title(line@) is Some,
        r is Some ==> r->0 <= line@.len() && line@.subrange(r->0 as int, line@.len() as int)
            == md_title(line@)->0,
{
    if line.len() >= 2 && line[0] == '#' && line[1] == ' ' {
        let ghost s = line@.subrange(2, line@.len() as int);
        let d = skip_digits(line, 2);
        let ghost r = line@.subrange(d as int, line@.len() as int);
        if d > 2 && d < line.len() && space_char(line[d]) {
            assert(r[0] == line@[d as int]);
            let t = skip_spaces(line, d);
            Some(t)
        } else if line.len() - d > 1 && line[d] == '.' && space_char(line[d + 1]) {
            assert(r[0] == line@[d as int]);
            assert(r[1] == line@[d + 1]);
            assert(r.drop_first() =~= line@.subrange(d + 1, line@.len() as int));
            let t = skip_spaces(line, d + 1);
            Some(t)
        } else {
            proof {
                if r.len() > 0 {
                    assert(r[0] == line@[d as int]);
                }
                if r.len() > 1 {
                    assert(r[1] == line@[d + 1]);
                }
            }
            None
        }
    } else {
        None
    }
}

fn md_link_exec(text: &[char], target: &[char]) -> (r: Vec<char>)
    ensures
        r@ == md_link(text@, target@),
{
    let mut out: Vec<char> = Vec::new();
    out.push('[');
    push_all(&mut out, text);
    out.push(']');
    out.push('(');
    push_all(&mut out, target);
    out.push(')');
    assert(out@ =~= md_link(text@, target@));
    out
}

fn rst_link_exec(text: &[char], target: &[char]) -> (r: Vec<char>)
    ensures
        r@ == rst_link(text@, target@),
{
    let mut out: Vec<char> = vec![':', 'd', 'o', 'c', ':', '`'];
    push_all(&mut out, text);
    out.push(' ');
    out.push('<');
    push_all(&mut out, target);
    out.push('>');
    out.push('`');
    assert(out@ =~= rst_link(text@, target@));
    out
}

fn same_chars(a: &[char], b: &[char]) -> (r: bool)
    ensures
        r == (a@ == b@),
{
    if a.len() != b.len() {
        return false;
    }
    let mut i: usize = 0;
    while i < a.len()
        invariant
            a@.len() == b@.len(),
            i <= a@.len(),
            forall|k: int| 0 <= k < i ==> a@[k] == b@[k],
        decreases a@.len() - i,
    {
        if a[i] != b[i] {
            return false;
        }
        i = i + 1;
    }
    assert(a@ =~= b@);
    true
}

fn path_label_exec(rel: &[char], format: &[char]) -> (r: Vec<char>)
    ensures
        r@ == path_label(rel@, format@),
{
    let md: Vec<char> = vec!['m', 'd'];
    let rst: Vec<char> = vec!['r', 's', 't'];
    assert(md@ =~= md_format());
    assert(rst@ =~= rst_format());
    if same_chars(format, &md) {
        md_link_exec(rel, rel)
    } else if same_chars(format, &rst) {
        rst_link_exec(rel, rel)
    } else {
        let mut out: Vec<char> = Vec::new();
        push_all(&mut out, rel);
        out
    }
}

/// The label under which other records refer to the record at `relative_path` (relative to
/// the record directory), whose text is `content` where it could be read. With the
/// markdown format the first `# NUMBER. TITLE` line gives the title; with the
/// reStructuredText format the line after the first delimiter line does. Without a title
/// the label is a link to the path.
pub fn formatted_title_and_file_of_record(
    relative_path: &str,
    content: Option<&str>,
    format: &str,
) -> (r: String)
    ensures
        r@ == record_label(
            relative_path@,
            match content {
                Some(c) => Some(c@),
                None => None,
            },
            format@,
        ),
{
    let rel = chars_of(relative_path);
    let fmt = chars_of(format);
    let fallback = path_label_exec(&rel, &fmt);
    let text = match content {
        None => {
            return string_of(&fallback);
        },
        Some(c) => chars_of(c),
    };
    let lines = split_lines(&text);
    let ghost cv: Option<Seq<char>> = match content {
        Some(c) => Some(c@),
        None => None,
    };
    assert(cv == Some(text@));
    let md: Vec<char> = vec!['m', 'd'];
    let rst: Vec<char> = vec!['r', 's', 't'];
    assert(md@ =~= md_format());
    assert(rst@ =~= rst_format());
    if same_chars(&fmt, &md) {
        assert(fmt@ == md_format());
        let mut i: usize = 0;
        while i < lines.len()
            invariant
                i <= lines@.len(),
                fmt@ == md_format(),
                views(lines@) == lines_of(text@),
                cv == Some(text@),
                cv == (match content {
                    Some(c) => Some(c@),
                    None => None,
                }),
                rel@ == relative_path@,
                fmt@ == format@,
                fallback@ == path_label(rel@, fmt@),
                first_md_title(views(lines@), 0) == first_md_title(views(lines@), i as int),
            decreases lines@.len() - i,
        {
            assert(views(lines@)[i as int] == lines@[i as int]@);
            if let Some(t) = md_title_start(&lines[i]) {
                let title = slice_from(&lines[i], t);
                assert(first_md_title(views(lines@), i as int) == md_title(lines@[i as int]@));
                return string_of(&md_link_exec(&title, &rel));
            }
            i = i + 1;
        }
        string_of(&fallback)
    } else if same_chars(&fmt, &rst) {
        assert(fmt@ == rst_format());
        let mut i: usize = 0;
        while i < lines.len()
            invariant
                i <= lines@.len(),
                fmt@ == rst_format(),
                views(lines@) == lines_of(text@),
                cv == Some(text@),
                cv == (match content {
                    Some(c) => Some(c@),
                    None => None,
                }),
                rel@ == relative_path@,
                fmt@ == format@,
                fallback@ == path_label(rel@, fmt@),
                first_rst_title(views(lines@), 0) == first_rst_title(views(lines@), i as int),
            decreases lines@.len() - i,
        {
            assert(views(lines@)[i as int] == lines@[i as int]@);
            if crate::status_block::rst_delimiter_exec(&lines[i]) {
                assert(is_rst_delimiter(views(lines@)[i as int]));
                if i + 1 < lines.len() {
                    assert(views(lines@)[i + 1] == lines@[i + 1]@);
                    assert(first_rst_title(views(lines@), i as int) == Some(lines@[i + 1]@));
                    return string_of(&rst_link_exec(&lines[i + 1], &rel));
                } else {
                    return string_of(&fallback);
                }
            }
            i = i + 1;
        }
        string_of(&fallback)
    } else {
        string_of(&fallback)
    }
}

fn slice_from(s: &[char], from: usize) -> (r: Vec<char>)
    requires
        from <= s@.len(),
    ensures
        r@ == s@.subrange(from as int, s@.len() as int),
{
    let mut out: Vec<char> = Vec::new();
    let mut i = from;
    while i < s.len()
        invariant
            from <= i <= s@.len(),
            out@ == s@.subrange(from as int, i as int),
        decreases s@.len() - i,
    {
        out.push(s[i]);
        i = i + 1;
        assert(out@ =~= s@.subrange(from as int, i as int));
    }
    out
}

} // verus!
