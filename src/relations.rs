//! Cross-linking records: supersede, deprecate, amend and link write a phrase into the
//! status section of each record of a relation, naming the other record.
use vstd::prelude::*;
use crate::config::Config;
use crate::record_link::{formatted_title_and_file_of_record, record_label};
use crate::records::{
    find_record_index, first_record, ErrorView, FileView, RecordError, RecordFile, RecordStore,
};
use crate::status_block::{inject_text_in_status_block_of_a_record, rewritten};
use crate::text::{all_digits, chars_of, digit_exec, digits_value, push_all, string_of};
use crate::translation::{translate_string, translated};

verus! {

/// The four kinds of relation between two records.
#[derive(Clone, Copy, Debug, PartialEq, Eq, Structural)]
pub enum Relation {
    Supersede,
    Deprecate,
    Amend,
    Link,
}

/// The phrase written into the "from" record, before translation; `#` stands for the
/// label of the "to" record.
pub open spec fn forward_phrase(k: Relation) -> Seq<char> {
    match k {
        Relation::Supersede => "Supersedes #"@,
        Relation::Deprecate => "Deprecates #"@,
        Relation::Amend => "Amends #"@,
        Relation::Link => "Linked to #"@,
    }
}

/// The phrase written into the "to" record, before translation; `#` stands for the label
/// of the "from" record.
pub open spec fn reverse_phrase(k: Relation) -> Seq<char> {
    match k {
        Relation::Supersede => "Superseded by #"@,
        Relation::Deprecate => "Deprecated by #"@,
        Relation::Amend => "Amended by #"@,
        Relation::Link => "Linked to #"@,
    }
}

/// A record number: one or more decimal digits whose value fits in 32 bits.
pub open spec fn identifier(s: Seq<char>) -> Option<u32> {
    if s.len() > 0 && all_digits(s) && digits_value(s) <= u32::MAX {
        Some(digits_value(s) as u32)
    } else {
        None
    }
}

/// Pieces of a comma-separated list read so far, and the unfinished piece.
pub open spec fn pieces_acc(s: Seq<char>) -> (Seq<Seq<char>>, Seq<char>)
    decreases s.len(),
{
    if s.len() == 0 {
        (seq![], seq![])
    } else {
        let (done, cur) = pieces_acc(s.drop_last());
        if s.last() == ',' {
            (done.push(cur), seq![])
        } else {
            (done, cur.push(s.last()))
        }
    }
}

/// The pieces of a comma-separated list; a comma at the very end ends the last piece and
/// starts none.
pub open spec fn list_pieces(s: Seq<char>) -> Seq<Seq<char>> {
    let (done, cur) = pieces_acc(s);
    if cur.len() == 0 {
        done
    } else {
        done.push(cur)
    }
}

/// The record numbers of `pieces` from `i` on, or the first piece that is no number.
pub open spec fn parse_pieces(pieces: Seq<Seq<char>>, i: int) -> Result<Seq<u32>, Seq<char>>
    decreases pieces.len() - i,
{
    if i < 0 || i >= pieces.len() {
        Ok(seq![])
    } else {
        match identifier(pieces[i]) {
            None => Err(pieces[i]),
            Some(n) => match parse_pieces(pieces, i + 1) {
                Ok(rest) => Ok(seq![n] + rest),
                Err(e) => Err(e),
            },
        }
    }
}

/// What a relation request holds beyond the records themselves.
pub struct RelCtx {
    pub kind: Relation,
    pub table: Seq<(Seq<char>, Seq<char>)>,
    pub format: Seq<char>,
    pub reason: Seq<char>,
}

pub open spec fn has_reason(c: RelCtx) -> bool {
    c.kind == Relation::Link && c.reason.len() > 0
}

/// A translated phrase, with the translated reason clause added where there is a reason.
pub open spec fn phrase_template(c: RelCtx, phrase: Seq<char>) -> Seq<char> {
    let base = translated(c.table, phrase);
    if has_reason(c) {
        base + seq![' '] + translated(c.table, "for reason %"@)
    } else {
        base
    }
}

/// The placeholders of `s` filled in one pass: its first `#` becomes `label`, and, unless
/// `pct_done`, its first `%` becomes `reason`. The text that goes in is never scanned again,
/// so a `#` or `%` inside the label or the reason stays as it is.
pub open spec fn fill_placeholders(
    s: Seq<char>,
    label: Seq<char>,
    reason: Seq<char>,
    hash_done: bool,
    pct_done: bool,
) -> Seq<char>
    decreases s.len(),
{
    if s.len() == 0 {
        s
    } else if s[0] == '#' && !hash_done {
        label + fill_placeholders(s.drop_first(), label, reason, true, pct_done)
    } else if s[0] == '%' && !pct_done {
        reason + fill_placeholders(s.drop_first(), label, reason, hash_done, true)
    } else {
        seq![s[0]] + fill_placeholders(s.drop_first(), label, reason, hash_done, pct_done)
    }
}

/// The line written into a record: the translated phrase template with its first `#`
/// replaced by the other record's label and, where there is a reason, its first `%`
/// replaced by the reason, both in the template itself.
pub open spec fn filled(c: RelCtx, phrase: Seq<char>, label: Seq<char>) -> Seq<char> {
    fill_placeholders(phrase_template(c, phrase), label, c.reason, false, !has_reason(c))
}

pub open spec fn status_heading(c: RelCtx) -> Seq<char> {
    translated(c.table, "Status"@)
}

/// Status words dropped from the "from" record: the translated `Approved` and `Proposed`
/// for supersede and deprecate, none for the others.
pub open spec fn prunes(c: RelCtx) -> Seq<Seq<char>> {
    if c.kind == Relation::Supersede || c.kind == Relation::Deprecate {
        seq![translated(c.table, "Approved"@), translated(c.table, "Proposed"@)]
    } else {
        seq![]
    }
}

/// One "from" record `f` against the "to" record at `ti`: the "from" record gets the
/// forward phrase with the "to" label, then the "to" record gets the reverse phrase with the
/// "from" label. The files after it, and the error that stopped it.
pub open spec fn relate_one(
    c: RelCtx,
    files: Seq<FileView>,
    ti: int,
    to_label: Seq<char>,
    f: u32,
) -> (Seq<FileView>, Option<ErrorView>) {
    match first_record(files, f as nat, 0) {
        None => (files, Some(ErrorView::RecordNotFound(f))),
        Some(fi) => {
            let fname = files[fi].0;
            let flabel = record_label(fname, files[fi].1, c.format);
            match files[fi].1 {
                None => (files, Some(ErrorView::IoError(fname))),
                Some(fc) => {
                    let newf = rewritten(
                        fname,
                        fc,
                        status_heading(c),
                        filled(c, forward_phrase(c.kind), to_label),
                        false,
                        false,
                        prunes(c),
                    );
                    let files1 = files.update(fi, (fname, Some(newf)));
                    let tname = files1[ti].0;
                    match files1[ti].1 {
                        None => (files1, Some(ErrorView::IoError(tname))),
                        Some(tc) => {
                            let newt = rewritten(
                                tname,
                                tc,
                                status_heading(c),
                                filled(c, reverse_phrase(c.kind), flabel),
                                false,
                                false,
                                seq![],
                            );
                            (files1.update(ti, (tname, Some(newt))), None)
                        },
                    }
                },
            }
        },
    }
}

/// The "from" records `ids` from `i` on, one after the other, stopping at the first error.
pub open spec fn relate_loop(
    c: RelCtx,
    files: Seq<FileView>,
    ti: int,
    to_label: Seq<char>,
    ids: Seq<u32>,
    i: int,
) -> (Seq<FileView>, Option<ErrorView>)
    decreases ids.len() - i,
{
    if i < 0 || i >= ids.len() {
        (files, None)
    } else {
        let (files1, err) = relate_one(c, files, ti, to_label, ids[i]);
        if err is Some {
            (files1, err)
        } else {
            relate_loop(c, files1, ti, to_label, ids, i + 1)
        }
    }
}

/// A whole relation request: the "to" number and the list of "from" numbers are read
/// first, then the "to" record is found and labelled, then each "from" record is linked.
pub open spec fn relation_outcome(
    c: RelCtx,
    files: Seq<FileView>,
    from: Seq<char>,
    to: Seq<char>,
) -> (Seq<FileView>, Option<ErrorView>) {
    match identifier(to) {
        None => (files, Some(ErrorView::InvalidRelationArgument(to))),
        Some(t) => match parse_pieces(list_pieces(from), 0) {
            Err(piece) => (files, Some(ErrorView::InvalidRelationArgument(piece))),
            Ok(ids) => match first_record(files, t as nat, 0) {
                None => (files, Some(ErrorView::RecordNotFound(t))),
                Some(ti) => relate_loop(
                    c,
                    files,
                    ti,
                    record_label(files[ti].0, files[ti].1, c.format),
                    ids,
                    0,
                ),
            },
        },
    }
}

pub open spec fn rel_ctx(kind: Relation, config: &Config, reason: Seq<char>) -> RelCtx {
    RelCtx {
        kind,
        table: config.template_references@,
        format: config.template_format@,
        reason,
    }
}

pub open spec fn outcome_of(r: Result<(), RecordError>) -> Option<ErrorView> {
    match r {
        Ok(_) => None,
        Err(e) => Some(e@),
    }
}

proof fn lemma_digits_prefix(s: Seq<char>, i: int)
    requires
        0 <= i <= s.len(),
        all_digits(s),
    ensures
        digits_value(s.subrange(0, i)) <= digits_value(s),
    decreases s.len() - i,
{
    if i < s.len() {
        lemma_digits_prefix(s.drop_last(), i);
        assert(s.drop_last().subrange(0, i) =~= s.subrange(0, i));
    } else {
        assert(s.subrange(0, i) =~= s);
    }
}

/// The record number that `s` spells, if it spells one.
pub fn parse_identifier(s: &[char]) -> (r: Option<u32>)
    ensures
        r == identifier(s@),
{
    if s.len() == 0 {
        return None;
    }
    let mut v: u64 = 0;
    let mut i: usize = 0;
    while i < s.len()
        invariant
            i <= s@.len(),
            all_digits(s@.subrange(0, i as int)),
            v as nat == digits_value(s@.subrange(0, i as int)),
            v <= u32::MAX,
        decreases s@.len() - i,
    {
        let c = s[i];
        if !digit_exec(c) {
            assert(!all_digits(s@)) by {
                assert(s@[i as int] == c);
            }
            return None;
        }
        assert(s@.subrange(0, i + 1).drop_last() =~= s@.subrange(0, i as int));
        assert(s@.subrange(0, i + 1).last() == c);
        assert(all_digits(s@.subrange(0, i + 1))) by {
            assert forall|k: int| 0 <= k < i + 1 implies crate::text::is_digit(
                #[trigger] s@.subrange(0, i + 1)[k],
            ) by {
                if k < i {
                    assert(s@.subrange(0, i + 1)[k] == s@.subrange(0, i as int)[k]);
                }
            }
        }
        v = v * 10 + (c as u32 - 48) as u64;
        i = i + 1;
        if v > 0xFFFF_FFFF {
            proof {
                if all_digits(s@) {
                    lemma_digits_prefix(s@, i as int);
                }
            }
            return None;
        }
    }
    assert(s@.subrange(0, s@.len() as int) =~= s@);
    Some(v as u32)
}

/// The pieces of the comma-separated list `s`.
pub fn split_list(s: &[char]) -> (r: Vec<Vec<char>>)
    ensures
        crate::text::views(r@) == list_pieces(s@),
{
    let mut done: Vec<Vec<char>> = Vec::new();
    let mut cur: Vec<char> = Vec::new();
    let mut i: usize = 0;
    while i < s.len()
        invariant
            i <= s@.len(),
            (crate::text::views(done@), cur@) == pieces_acc(s@.subrange(0, i as int)),
        decreases s@.len() - i,
    {
        let c = s[i];
        assert(s@.subrange(0, i + 1).drop_last() =~= s@.subrange(0, i as int));
        if c == ',' {
            done.push(cur);
            cur = Vec::new();
        } else {
            cur.push(c);
        }
        assert(crate::text::views(done@) =~= pieces_acc(s@.subrange(0, i + 1)).0);
        assert(cur@ =~= pieces_acc(s@.subrange(0, i + 1)).1);
        i = i + 1;
    }
    assert(s@.subrange(0, s@.len() as int) =~= s@);
    if cur.len() > 0 {
        done.push(cur);
        assert(crate::text::views(done@) =~= list_pieces(s@));
    }
    done
}

/// The record numbers of the comma-separated list `s`, or the first piece that is no
/// number.
pub fn parse_list(s: &[char]) -> (r: Result<Vec<u32>, Vec<char>>)
    ensures
        match parse_pieces(list_pieces(s@), 0) {
            Ok(ids) => r is Ok && r->Ok_0@ == ids,
            Err(p) => r is Err && r->Err_0@ == p,
        },
{
    let pieces = split_list(s);
    let ghost ps = crate::text::views(pieces@);
    let mut ids: Vec<u32> = Vec::new();
    let mut i: usize = 0;
    while i < pieces.len()
        invariant
            i <= pieces@.len(),
            ps == crate::text::views(pieces@),
            ps == list_pieces(s@),
            parse_pieces(ps, 0) == match parse_pieces(ps, i as int) {
                Ok(rest) => Ok(ids@ + rest),
                Err(e) => Err(e),
            },
        decreases pieces@.len() - i,
    {
        assert(ps[i as int] == pieces@[i as int]@);
        match parse_identifier(&pieces[i]) {
            None => {
                let mut bad: Vec<char> = Vec::new();
                push_all(&mut bad, &pieces[i]);
                return Err(bad);
            },
            Some(n) => {
                proof {
                    match parse_pieces(ps, i + 1) {
                        Ok(rest) => {
                            assert(ids@.push(n) + rest =~= ids@ + (seq![n] + rest));
                        },
                        Err(e) => {},
                    }
                }
                ids.push(n);
            },
        }
        i = i + 1;
    }
    assert(ids@ + Seq::<u32>::empty() =~= ids@);
    Ok(ids)
}

/// Fills the placeholders of `s` in one pass (see `fill_placeholders`).
pub fn fill_placeholders_exec(s: &[char], label: &[char], reason: &[char], pct_done: bool) -> (r:
    Vec<char>)
    ensures
        r@ == fill_placeholders(s@, label@, reason@, false, pct_done),
{
    let mut out: Vec<char> = Vec::new();
    let mut hash = false;
    let mut pct = pct_done;
    let mut i: usize = 0;
    assert(s@.subrange(0, s@.len() as int) =~= s@);
    assert(out@ + fill_placeholders(s@, label@, reason@, false, pct_done) =~= fill_placeholders(
        s@,
        label@,
        reason@,
        false,
        pct_done,
    ));
    while i < s.len()
        invariant
            i <= s@.len(),
            out@ + fill_placeholders(s@.subrange(i as int, s@.len() as int), label@, reason@, hash, pct)
                == fill_placeholders(s@, label@, reason@, false, pct_done),
        decreases s@.len() - i,
    {
        let ghost rest = s@.subrange(i as int, s@.len() as int);
        let ghost before = out@;
        let ghost (h0, p0) = (hash, pct);
        assert(rest.drop_first() =~= s@.subrange(i + 1, s@.len() as int));
        assert(rest[0] == s@[i as int]);
        let c = s[i];
        if c == '#' && !hash {
            push_all(&mut out, label);
            hash = true;
        } else if c == '%' && !pct {
            push_all(&mut out, reason);
            pct = true;
        } else {
            out.push(c);
        }
        i = i + 1;
        assert(out@ + fill_placeholders(s@.subrange(i as int, s@.len() as int), label@, reason@, hash, pct)
            =~= before + fill_placeholders(rest, label@, reason@, h0, p0));
    }
    assert(s@.subrange(s@.len() as int, s@.len() as int) =~= Seq::<char>::empty());
    assert(out@ + Seq::<char>::empty() =~= out@);
    out
}

fn phrase_of(k: Relation, forward: bool) -> (r: String)
    ensures
        r@ == if forward {
            forward_phrase(k)
        } else {
            reverse_phrase(k)
        },
{
    let s = match (k, forward) {
        (Relation::Supersede, true) => "Supersedes #",
        (Relation::Deprecate, true) => "Deprecates #",
        (Relation::Amend, true) => "Amends #",
        (Relation::Link, true) => "Linked to #",
        (Relation::Supersede, false) => "Superseded by #",
        (Relation::Deprecate, false) => "Deprecated by #",
        (Relation::Amend, false) => "Amended by #",
        (Relation::Link, false) => "Linked to #",
    };
    String::from_str(s)
}

/// The line written into a record for the relation: see `filled`.
fn fill_phrase(
    kind: Relation,
    config: &Config,
    reason: &str,
    forward: bool,
    label: &[char],
) -> (r: String)
    ensures
        r@ == filled(
            rel_ctx(kind, config, reason@),
            if forward {
                forward_phrase(kind)
            } else {
                reverse_phrase(kind)
            },
            label@,
        ),
{
    let ghost c = rel_ctx(kind, config, reason@);
    let base = translate_string(phrase_of(kind, forward), &config.template_references);
    let mut template = chars_of(base.as_str());
    let reason_v = chars_of(reason);
    let with_reason = kind == Relation::Link && reason_v.len() > 0;
    assert(with_reason == has_reason(c));
    if with_reason {
        template.push(' ');
        let clause = translate_string(String::from_str("for reason %"), &config.template_references);
        push_all(&mut template, &chars_of(clause.as_str()));
    }
    assert(template@ =~= phrase_template(
        c,
        if forward {
            forward_phrase(kind)
        } else {
            reverse_phrase(kind)
        },
    ));
    string_of(&fill_placeholders_exec(&template, label, &reason_v, !with_reason))
}

fn record_label_at(store: &RecordStore, i: usize, format: &str) -> (r: Vec<char>)
    requires
        i < store@.len(),
    ensures
        r@ == record_label(store@[i as int].0, store@[i as int].1, format@),
{
    let f = &store.files[i];
    assert(store@[i as int] == crate::records::file_view(store.files@[i as int]));
    let content = match &f.content {
        Some(c) => Some(c.as_str()),
        None => None,
    };
    chars_of(formatted_title_and_file_of_record(f.name.as_str(), content, format).as_str())
}

/// Rewrites the status section of the record at `i` with `line`, or names the file that
/// could not be read.
fn rewrite_at(
    store: &mut RecordStore,
    i: usize,
    heading: &String,
    line: &String,
    prune: &Vec<String>,
) -> (r: Result<(), RecordError>)
    requires
        i < old(store)@.len(),
    ensures
        match old(store)@[i as int].1 {
            None => r is Err && r->Err_0@ == ErrorView::IoError(old(store)@[i as int].0)
                && final(store)@ == old(store)@,
            Some(content) => r is Ok && final(store)@ == old(store)@.update(
                i as int,
                (
                    old(store)@[i as int].0,
                    Some(
                        rewritten(
                            old(store)@[i as int].0,
                            content,
                            heading@,
                            line@,
                            false,
                            false,
                            crate::status_block::string_views(prune@),
                        ),
                    ),
                ),
            ),
        },
{
    assert(store@[i as int] == crate::records::file_view(store.files@[i as int]));
    let name = store.files[i].name.clone();
    let new_text = match &store.files[i].content {
        None => {
            return Err(RecordError::IoError(name));
        },
        Some(c) => inject_text_in_status_block_of_a_record(
            name.as_str(),
            c.as_str(),
            heading.as_str(),
            line.as_str(),
            false,
            false,
            prune,
        ),
    };
    let ghost old_v = store@;
    store.files.set(i, RecordFile { name, content: Some(new_text) });
    assert(store@ =~= old_v.update(i as int, (old_v[i as int].0, Some(new_text@))));
    Ok(())
}

/// Links the records numbered in the comma-separated list `from` to the record numbered
/// `to` by the relation `kind`. See `relation_outcome` for what is done and in which order;
/// changes made before an error stay.
pub fn relate(
    store: &mut RecordStore,
    config: &Config,
    kind: Relation,
    from: &str,
    to: &str,
    reason: &str,
) -> (r: Result<(), RecordError>)
    ensures
        (final(store)@, outcome_of(r)) == relation_outcome(
            rel_ctx(kind, config, reason@),
            old(store)@,
            from@,
            to@,
        ),
{
    let ghost c = rel_ctx(kind, config, reason@);
    let to_v = chars_of(to);
    let t = match parse_identifier(&to_v) {
        None => {
            return Err(RecordError::InvalidRelationArgument(String::from_str(to)));
        },
        Some(t) => t,
    };
    let from_v = chars_of(from);
    let ids = match parse_list(&from_v) {
        Err(piece) => {
            return Err(RecordError::InvalidRelationArgument(string_of(&piece)));
        },
        Ok(ids) => ids,
    };
    let ti = match find_record_index(t, store) {
        None => {
            return Err(RecordError::RecordNotFound(t));
        },
        Some(ti) => ti,
    };
    let to_label = record_label_at(store, ti, config.template_format.as_str());
    let heading = translate_string(String::from_str("Status"), &config.template_references);
    let mut prune: Vec<String> = Vec::new();
    if kind == Relation::Supersede || kind == Relation::Deprecate {
        prune.push(translate_string(String::from_str("Approved"), &config.template_references));
        prune.push(translate_string(String::from_str("Proposed"), &config.template_references));
    }
    assert(crate::status_block::string_views(prune@) =~= prunes(c));
    let ghost files0 = store@;
    let mut i: usize = 0;
    while i < ids.len()
        invariant
            i <= ids@.len(),
            ti < store@.len(),
            store@.len() == files0.len(),
            files0 == old(store)@,
            heading@ == status_heading(c),
            crate::status_block::string_views(prune@) == prunes(c),
            c == rel_ctx(kind, config, reason@),
            to_label@ == record_label(files0[ti as int].0, files0[ti as int].1, c.format),
            relation_outcome(c, files0, from@, to@) == relate_loop(
                c,
                store@,
                ti as int,
                to_label@,
                ids@,
                i as int,
            ),
        decreases ids@.len() - i,
    {
        let f = ids[i];
        let ghost st0 = store@;
        let ghost step = relate_one(c, st0, ti as int, to_label@, f);
        assert(relate_loop(c, st0, ti as int, to_label@, ids@, i as int) == if step.1 is Some {
            step
        } else {
            relate_loop(c, step.0, ti as int, to_label@, ids@, i + 1)
        });
        let fi = match find_record_index(f, store) {
            None => {
                assert(step == (st0, Some(ErrorView::RecordNotFound(f))));
                return Err(RecordError::RecordNotFound(f));
            },
            Some(fi) => fi,
        };
        let from_label = record_label_at(store, fi, config.template_format.as_str());
        let forward = fill_phrase(kind, config, reason, true, &to_label);
        let reverse = fill_phrase(kind, config, reason, false, &from_label);
        match rewrite_at(store, fi, &heading, &forward, &prune) {
            Err(e) => {
                assert(step == (st0, Some(ErrorView::IoError(st0[fi as int].0))));
                return Err(e);
            },
            Ok(()) => {},
        }
        let ghost st1 = store@;
        let no_prune: Vec<String> = Vec::new();
        assert(crate::status_block::string_views(no_prune@) =~= Seq::<Seq<char>>::empty());
        match rewrite_at(store, ti, &heading, &reverse, &no_prune) {
            Err(e) => {
                assert(step == (st1, Some(ErrorView::IoError(st1[ti as int].0))));
                return Err(e);
            },
            Ok(()) => {},
        }
        assert(step == (store@, None::<ErrorView>));
        i = i + 1;
    }
    Ok(())
}

/// Marks the records listed in `from` as superseded, in relation to record `to`: each
/// "from" record gets `Supersedes` and the label of `to`, and loses its `Approved` or
/// `Proposed` line; record `to` gets `Superseded by` and the label of the "from" record.
pub fn supersede(store: &mut RecordStore, config: &Config, from: String, to: String) -> (r: Result<
    (),
    RecordError,
>)
    ensures
        (final(store)@, outcome_of(r)) == relation_outcome(
            rel_ctx(Relation::Supersede, config, seq![]),
            old(store)@,
            from@,
            to@,
        ),
{
    proof {
        reveal_strlit("");
        assert(""@ =~= Seq::<char>::empty());
    }
    relate(store, config, Relation::Supersede, from.as_str(), to.as_str(), "")
}

/// Deprecates by record `to` the records listed in `from`: `Deprecates` in each "from"
/// record, which loses its `Approved` or `Proposed` line, and `Deprecated by` in `to`.
pub fn deprecate(store: &mut RecordStore, config: &Config, from: String, to: String) -> (r: Result<
    (),
    RecordError,
>)
    ensures
        (final(store)@, outcome_of(r)) == relation_outcome(
            rel_ctx(Relation::Deprecate, config, seq![]),
            old(store)@,
            from@,
            to@,
        ),
{
    proof {
        reveal_strlit("");
        assert(""@ =~= Seq::<char>::empty());
    }
    relate(store, config, Relation::Deprecate, from.as_str(), to.as_str(), "")
}

/// Amends by record `to` the records listed in `from`: `Amends` in each "from" record and
/// `Amended by` in `to`.
pub fn amend(store: &mut RecordStore, config: &Config, from: String, to: String) -> (r: Result<
    (),
    RecordError,
>)
    ensures
        (final(store)@, outcome_of(r)) == relation_outcome(
            rel_ctx(Relation::Amend, config, seq![]),
            old(store)@,
            from@,
            to@,
        ),
{
    proof {
        reveal_strlit("");
        assert(""@ =~= Seq::<char>::empty());
    }
    relate(store, config, Relation::Amend, from.as_str(), to.as_str(), "")
}

/// Links the records listed in `from` and record `to` both ways with `Linked to`, followed
/// by `for reason` and `reason` where `reason` is not empty.
pub fn link(store: &mut RecordStore, config: &Config, from: String, to: String, reason: String) -> (r:
    Result<(), RecordError>)
    ensures
        (final(store)@, outcome_of(r)) == relation_outcome(
            rel_ctx(Relation::Link, config, reason@),
            old(store)@,
            from@,
            to@,
        ),
{
    relate(store, config, Relation::Link, from.as_str(), to.as_str(), reason.as_str())
}

} // verus!
