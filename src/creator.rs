//! Creating a record: the next number, the file name, the rendered template, then the
//! relations declared for the new record.
use vstd::prelude::*;
use crate::config::Config;
use crate::records::{
    max_prefix, next_record_number, record_file_name, record_name, ErrorView, FileView,
    RecordError, RecordFile, RecordStore,
};
use crate::relations::{outcome_of, rel_ctx, relate, relation_outcome, Relation};
use crate::text::{
    all_digits, chars_of, contains, decimal, decimal_chars, is_digit, lemma_decimal,
    lemma_replace_leaves_no, misaligned, no_overlap, replace_all, replace_all_exec, string_of,
};
use crate::translation::{translate_string, translated};

verus! {

/// The slug that `slug::slugify` makes of a title.
pub uninterp spec fn slug_of(title: Seq<char>) -> Seq<char>;

pub open spec fn is_slug_char(c: char) -> bool {
    ('a' <= c && c <= 'z') || ('0' <= c && c <= '9') || c == '-'
}

/// Relies on `slug::slugify`: a slug of the title, made only of `a`-`z`, `0`-`9` and `-`.
#[verifier::external_body]
fn slugify_title(title: &str) -> (r: String)
    ensures
        r@ == slug_of(title@),
        forall|i: int| 0 <= i < r@.len() ==> is_slug_char(#[trigger] r@[i]),
{
    slug::slugify(title)
}

pub open spec fn is_date_char(c: char) -> bool {
    ('0' <= c && c <= '9') || c == '-' || c == '+'
}

/// Relies on `chrono::Local::now`, formatted with `%Y-%m-%d`: today's date where the
/// process runs, written with digits, `-` and (for a year past 9999) `+`.
#[verifier::external_body]
fn today() -> (r: String)
    ensures
        r@.len() > 0,
        forall|i: int| 0 <= i < r@.len() ==> is_date_char(#[trigger] r@[i]),
{
    chrono::Local::now().format("%Y-%m-%d").to_string()
}

/// The template with every `NUMBER`, then every `TITLE`, `DATE` and `STATUS` replaced.
pub open spec fn rendered(
    template: Seq<char>,
    number: nat,
    title: Seq<char>,
    date: Seq<char>,
    status: Seq<char>,
) -> Seq<char> {
    let a = replace_all(template, "NUMBER"@, decimal(number));
    let b = replace_all(a, "TITLE"@, title);
    let c = replace_all(b, "DATE"@, date);
    replace_all(c, "STATUS"@, status)
}

/// Renders a record template: every `NUMBER` becomes the record number in decimal, then
/// every `TITLE` the title, every `DATE` the date and every `STATUS` the status, each
/// taken literally.
pub fn render_template(
    template: &str,
    number: u32,
    title: &str,
    date: &str,
    status: &str,
) -> (r: String)
    ensures
        r@ == rendered(template@, number as nat, title@, date@, status@),
{
    proof {
        reveal_strlit("NUMBER");
        reveal_strlit("TITLE");
        reveal_strlit("DATE");
        reveal_strlit("STATUS");
    }
    let t = chars_of(template);
    let a = replace_all_exec(&t, &chars_of("NUMBER"), &decimal_chars(number));
    let b = replace_all_exec(&a, &chars_of("TITLE"), &chars_of(title));
    let c = replace_all_exec(&b, &chars_of("DATE"), &chars_of(date));
    let d = replace_all_exec(&c, &chars_of("STATUS"), &chars_of(status));
    string_of(&d)
}

proof fn lemma_digits_never_overlap(v: Seq<char>, q: Seq<char>)
    requires
        v.len() > 0,
        q.len() > 0,
        all_digits(v),
        forall|i: int| 0 <= i < q.len() ==> !is_digit(#[trigger] q[i]),
    ensures
        no_overlap(v, q),
{
    assert forall|d: int| -q.len() < d < v.len() implies #[trigger] misaligned(v, q, d) by {
        let i: int = if d >= 0 {
            0
        } else {
            -d
        };
        assert(0 <= i < q.len());
        assert(is_digit(v[d + i]));
        assert(!is_digit(q[i]));
        assert(q[i] != v[d + i]);
    }
}

/// Rendering leaves no `NUMBER`, `TITLE`, `DATE` or `STATUS` in the record: every
/// occurrence is replaced, and none is formed anew, where the title, the date and the
/// status are not empty and none of them could overlap, wherever it stands, a marker that
/// is replaced at the same time as it or earlier.
pub proof fn lemma_render_leaves_no_marker(
    template: Seq<char>,
    number: nat,
    title: Seq<char>,
    date: Seq<char>,
    status: Seq<char>,
)
    requires
        title.len() > 0,
        date.len() > 0,
        status.len() > 0,
        no_overlap(title, "NUMBER"@),
        no_overlap(title, "TITLE"@),
        no_overlap(date, "NUMBER"@),
        no_overlap(date, "TITLE"@),
        no_overlap(date, "DATE"@),
        no_overlap(status, "NUMBER"@),
        no_overlap(status, "TITLE"@),
        no_overlap(status, "DATE"@),
        no_overlap(status, "STATUS"@),
    ensures
        ({
            let r = rendered(template, number, title, date, status);
            &&& !contains(r, "NUMBER"@)
            &&& !contains(r, "TITLE"@)
            &&& !contains(r, "DATE"@)
            &&& !contains(r, "STATUS"@)
        }),
{
    reveal_strlit("NUMBER");
    reveal_strlit("TITLE");
    reveal_strlit("DATE");
    reveal_strlit("STATUS");
    let n = "NUMBER"@;
    let t = "TITLE"@;
    let d = "DATE"@;
    let st = "STATUS"@;
    lemma_decimal(number);
    let num = decimal(number);
    assert forall|i: int| 0 <= i < n.len() implies !is_digit(#[trigger] n[i]) by {}
    lemma_digits_never_overlap(num, n);
    let a = replace_all(template, n, num);
    lemma_replace_leaves_no(template, n, num, n);
    let b = replace_all(a, t, title);
    lemma_replace_leaves_no(a, t, title, n);
    lemma_replace_leaves_no(a, t, title, t);
    let c = replace_all(b, d, date);
    lemma_replace_leaves_no(b, d, date, n);
    lemma_replace_leaves_no(b, d, date, t);
    lemma_replace_leaves_no(b, d, date, d);
    lemma_replace_leaves_no(c, st, status, n);
    lemma_replace_leaves_no(c, st, status, t);
    lemma_replace_leaves_no(c, st, status, d);
    lemma_replace_leaves_no(c, st, status, st);
}

/// The status of a new record, before translation: `Proposed` when asked for, else
/// `Approved` when asked for, else the default.
pub open spec fn status_word(default_status: Seq<char>, proposed: bool, approved: bool) -> Seq<
    char,
> {
    if proposed {
        "Proposed"@
    } else if approved {
        "Approved"@
    } else {
        default_status
    }
}

pub open spec fn name_taken(files: Seq<FileView>, name: Seq<char>) -> bool {
    exists|i: int| 0 <= i < files.len() && #[trigger] files[i].0 == name
}

/// The next relation of a new record, unless an earlier one failed or its list is empty.
pub open spec fn then_relate(
    prev: (Seq<FileView>, Option<ErrorView>),
    kind: Relation,
    config: Config,
    reason: Seq<char>,
    list: Seq<char>,
    to: Seq<char>,
) -> (Seq<FileView>, Option<ErrorView>) {
    if prev.1 is Some || list.len() == 0 {
        prev
    } else {
        relation_outcome(rel_ctx(kind, &config, reason), prev.0, list, to)
    }
}

/// What creating a record does to the files, and the error that stopped it.
pub open spec fn creation_outcome(
    config: Config,
    files: Seq<FileView>,
    title: Seq<char>,
    slug: Seq<char>,
    date: Seq<char>,
    supersedes: Seq<char>,
    deprecates: Seq<char>,
    amends: Seq<char>,
    links: Seq<char>,
    proposed: bool,
    approved: bool,
) -> (Seq<FileView>, Option<ErrorView>) {
    let n = max_prefix(files, files.len() as int) + 1;
    let name = record_name(n, slug, config.template_format@);
    if name_taken(files, name) {
        (files, Some(ErrorView::AlreadyExists(name)))
    } else {
        let status = translated(
            config.template_references@,
            status_word(config.default_status@, proposed, approved),
        );
        let text = rendered(config.template_string@, n, title, date, status);
        let f1 = (files.push((name, Some(text))), None);
        let to = decimal(n);
        let f2 = then_relate(f1, Relation::Supersede, config, seq![], supersedes, to);
        let f3 = then_relate(f2, Relation::Deprecate, config, seq![], deprecates, to);
        let f4 = then_relate(f3, Relation::Amend, config, seq![], amends, to);
        then_relate(f4, Relation::Link, config, seq![], links, to)
    }
}

fn name_index(store: &RecordStore, name: &String) -> (r: bool)
    ensures
        r == name_taken(store@, name@),
{
    let mut i: usize = 0;
    while i < store.files.len()
        invariant
            i <= store@.len(),
            store@.len() == store.files@.len(),
            forall|j: int| 0 <= j < i ==> #[trigger] store@[j].0 != name@,
        decreases store@.len() - i,
    {
        assert(store@[i as int].0 == store.files@[i as int].name@);
        if store.files[i].name == *name {
            return true;
        }
        i = i + 1;
    }
    false
}

fn relate_if(
    store: &mut RecordStore,
    config: &Config,
    kind: Relation,
    list: &str,
    to: &str,
    reason: &str,
) -> (r: Result<(), RecordError>)
    ensures
        (final(store)@, outcome_of(r)) == then_relate(
            (old(store)@, None),
            kind,
            *config,
            reason@,
            list@,
            to@,
        ),
{
    if list.unicode_len() == 0 {
        Ok(())
    } else {
        relate(store, config, kind, list, to, reason)
    }
}

/// Creates record number `1 +` the largest four-digit prefix among the file names (1 when
/// there is none), named from `slug`, with the configured template rendered with `title`,
/// `date` and the translated status; then links it, as the "to" record, to the records
/// listed in `supersedes`, `deprecates`, `amends` and `links`, in that order. A file of the
/// same name is never overwritten. Returns the new record's number.
pub fn create_record(
    store: &mut RecordStore,
    config: &Config,
    title: &str,
    slug: &str,
    date: &str,
    supersedes: &str,
    deprecates: &str,
    amends: &str,
    links: &str,
    proposed: bool,
    approved: bool,
) -> (r: Result<u32, RecordError>)
    ensures
        ({
            let (files, err) = creation_outcome(
                *config,
                old(store)@,
                title@,
                slug@,
                date@,
                supersedes@,
                deprecates@,
                amends@,
                links@,
                proposed,
                approved,
            );
            &&& final(store)@ == files
            &&& match r {
                Ok(n) => err is None && n as nat == max_prefix(old(store)@, old(store)@.len() as int)
                    + 1,
                Err(e) => err == Some(e@),
            }
        }),
{
    let n = next_record_number(store);
    let name = record_file_name(n, slug, config.template_format.as_str());
    if name_index(store, &name) {
        return Err(RecordError::AlreadyExists(name));
    }
    let word = if proposed {
        String::from_str("Proposed")
    } else if approved {
        String::from_str("Approved")
    } else {
        config.default_status.clone()
    };
    let status = translate_string(word, &config.template_references);
    let text = render_template(
        config.template_string.as_str(),
        n,
        title,
        date,
        status.as_str(),
    );
    let ghost files0 = store@;
    store.files.push(RecordFile { name, content: Some(text) });
    assert(store@ =~= files0.push((name@, Some(text@))));
    let to = string_of(&decimal_chars(n));
    proof {
        reveal_strlit("");
        assert(""@ =~= Seq::<char>::empty());
    }
    match relate_if(store, config, Relation::Supersede, supersedes, to.as_str(), "") {
        Err(e) => {
            return Err(e);
        },
        Ok(()) => {},
    }
    match relate_if(store, config, Relation::Deprecate, deprecates, to.as_str(), "") {
        Err(e) => {
            return Err(e);
        },
        Ok(()) => {},
    }
    match relate_if(store, config, Relation::Amend, amends, to.as_str(), "") {
        Err(e) => {
            return Err(e);
        },
        Ok(()) => {},
    }
    match relate_if(store, config, Relation::Link, links, to.as_str(), "") {
        Err(e) => {
            return Err(e);
        },
        Ok(()) => {},
    }
    Ok(n)
}

/// Creates a record as `create_record` does, with the slug that `slug::slugify` makes of
/// `title` and today's date, a non-empty text of digits, `-` and `+`. Returns the new record's number.
pub fn new_record(
    store: &mut RecordStore,
    title: String,
    supersedes: String,
    deprecates: String,
    amends: String,
    links: String,
    proposed: bool,
    approved: bool,
    config: &Config,
) -> (r: Result<u32, RecordError>)
    ensures
        exists|date: Seq<char>|
            {
                let (files, err) = #[trigger] creation_outcome(
                    *config,
                    old(store)@,
                    title@,
                    slug_of(title@),
                    date,
                    supersedes@,
                    deprecates@,
                    amends@,
                    links@,
                    proposed,
                    approved,
                );
                &&& date.len() > 0
                &&& forall|i: int| 0 <= i < date.len() ==> is_date_char(#[trigger] date[i])
                &&& final(store)@ == files
                &&& match r {
                    Ok(n) => err is None && n as nat == max_prefix(
                        old(store)@,
                        old(store)@.len() as int,
                    ) + 1,
                    Err(e) => err == Some(e@),
                }
            },
{
    let slug = slugify_title(title.as_str());
    let date = today();
    create_record(
        store,
        config,
        title.as_str(),
        slug.as_str(),
        date.as_str(),
        supersedes.as_str(),
        deprecates.as_str(),
        amends.as_str(),
        links.as_str(),
        proposed,
        approved,
    )
}

} // verus!
