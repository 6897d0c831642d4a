//! The record directory as the library sees it: each entry's file name, in directory order,
//! with the file's text where it could be read. Records are found here by number.
use vstd::prelude::*;
use crate::text::{
    all_digits, chars_of, digit_exec, digits_value, is_digit, occurs_at, occurs_at_exec, padded4,
    padded4_chars, push_all, string_of,
};

verus! {

/// One entry of the record directory.
pub struct RecordFile {
    pub name: String,
    pub content: Option<String>,
}

/// The entries of the record directory, in directory order.
pub struct RecordStore {
    pub files: Vec<RecordFile>,
}

pub type FileView = (Seq<char>, Option<Seq<char>>);

pub open spec fn opt_view(o: Option<String>) -> Option<Seq<char>> {
    match o {
        Some(s) => Some(s@),
        None => None,
    }
}

pub open spec fn file_view(f: RecordFile) -> FileView {
    (f.name@, opt_view(f.content))
}

impl View for RecordStore {
    type V = Seq<FileView>;

    open spec fn view(&self) -> Seq<FileView> {
        self.files@.map_values(|f: RecordFile| file_view(f))
    }
}

/// What went wrong with a request on the records.
#[derive(Debug, PartialEq, Eq)]
pub enum RecordError {
    /// No record has this number.
    RecordNotFound(u32),
    /// The named file could not be read or written.
    IoError(String),
    /// A record file of this name is there already.
    AlreadyExists(String),
    /// This record number (an item of a list of numbers) is not a number.
    InvalidRelationArgument(String),
}

/// An error as the contracts see it.
pub enum ErrorView {
    RecordNotFound(u32),
    IoError(Seq<char>),
    AlreadyExists(Seq<char>),
    InvalidRelationArgument(Seq<char>),
}

impl View for RecordError {
    type V = ErrorView;

    open spec fn view(&self) -> ErrorView {
        match self {
            RecordError::RecordNotFound(n) => ErrorView::RecordNotFound(*n),
            RecordError::IoError(s) => ErrorView::IoError(s@),
            RecordError::AlreadyExists(s) => ErrorView::AlreadyExists(s@),
            RecordError::InvalidRelationArgument(s) => ErrorView::InvalidRelationArgument(s@),
        }
    }
}

/// The file names of record `number`: its number padded to four digits, then a hyphen.
pub open spec fn is_record_name(name: Seq<char>, number: nat) -> bool {
    occurs_at(name, padded4(number) + seq!['-'], 0)
}

/// Index of the first entry from `i` on that is record `number`.
pub open spec fn first_record(files: Seq<FileView>, number: nat, i: int) -> Option<int>
    decreases files.len() - i,
{
    if i < 0 || i >= files.len() {
        None
    } else if is_record_name(files[i].0, number) {
        Some(i)
    } else {
        first_record(files, number, i + 1)
    }
}

pub proof fn lemma_first_record(files: Seq<FileView>, number: nat, i: int)
    requires
        0 <= i <= files.len(),
    ensures
        match first_record(files, number, i) {
            Some(k) => i <= k < files.len() && is_record_name(files[k].0, number) && forall|j: int|
                i <= j < k ==> !is_record_name(#[trigger] files[j].0, number),
            None => forall|j: int| i <= j < files.len() ==> !is_record_name(#[trigger] files[j].0, number),
        },
    decreases files.len() - i,
{
    if i < files.len() {
        lemma_first_record(files, number, i + 1);
    }
}

/// Index of the first entry that is record `number`.
pub fn find_record_index(number: u32, store: &RecordStore) -> (r: Option<usize>)
    ensures
        match r {
            Some(i) => first_record(store@, number as nat, 0) == Some(i as int) && i < store@.len(),
            None => first_record(store@, number as nat, 0) is None,
        },
{
    let mut key = padded4_chars(number);
    key.push('-');
    let mut i: usize = 0;
    while i < store.files.len()
        invariant
            i <= store@.len(),
            store@.len() == store.files@.len(),
            key@ == padded4(number as nat) + seq!['-'],
            first_record(store@, number as nat, 0) == first_record(store@, number as nat, i as int),
        decreases store@.len() - i,
    {
        let name = chars_of(store.files[i].name.as_str());
        assert(store@[i as int].0 == store.files@[i as int].name@);
        if occurs_at_exec(&name, &key, 0) {
            return Some(i);
        }
        i = i + 1;
    }
    None
}

/// The file name of the first entry, in directory order, that is record `number`: a name
/// that starts with the number padded to four digits and a hyphen.
pub fn find_record(number: u32, store: &RecordStore) -> (r: Result<String, RecordError>)
    ensures
        match first_record(store@, number as nat, 0) {
            Some(k) => r is Ok && r->Ok_0@ == store@[k].0,
            None => r is Err && r->Err_0@ == ErrorView::RecordNotFound(number),
        },
{
    proof {
        lemma_first_record(store@, number as nat, 0);
    }
    match find_record_index(number, store) {
        Some(i) => {
            assert(store@[i as int].0 == store.files@[i as int].name@);
            let name = store.files[i].name.clone();
            assert(name@ == store@[i as int].0);
            Ok(name)
        },
        None => Err(RecordError::RecordNotFound(number)),
    }
}

/// Whether a file name starts with four digits, and their value.
pub open spec fn number_prefix(name: Seq<char>) -> Option<nat> {
    if name.len() >= 4 && all_digits(name.subrange(0, 4)) {
        Some(digits_value(name.subrange(0, 4)))
    } else {
        None
    }
}

/// The largest four-digit prefix among the first `n` names, 0 where none has one.
pub open spec fn max_prefix(names: Seq<FileView>, n: int) -> nat
    decreases n,
{
    if n <= 0 || n > names.len() {
        0
    } else {
        let m = max_prefix(names, n - 1);
        match number_prefix(names[n - 1].0) {
            Some(v) => if v > m {
                v
            } else {
                m
            },
            None => m,
        }
    }
}

pub proof fn lemma_max_prefix(names: Seq<FileView>, n: int)
    requires
        0 <= n <= names.len(),
    ensures
        forall|j: int|
            0 <= j < n && #[trigger] number_prefix(names[j].0) is Some ==> number_prefix(
                names[j].0,
            )->0 <= max_prefix(names, n),
        max_prefix(names, n) == 0 || exists|j: int|
            0 <= j < n && #[trigger] number_prefix(names[j].0) == Some(max_prefix(names, n)),
        max_prefix(names, n) <= 9999,
    decreases n,
{
    if n > 0 {
        lemma_max_prefix(names, n - 1);
        if number_prefix(names[n - 1].0) is Some {
            lemma_four_digits(names[n - 1].0.subrange(0, 4));
        }
    }
}

proof fn lemma_four_digits(s: Seq<char>)
    requires
        s.len() == 4,
        all_digits(s),
    ensures
        digits_value(s) <= 9999,
{
    let s3 = s.drop_last();
    let s2 = s3.drop_last();
    let s1 = s2.drop_last();
    assert(s1.drop_last().len() == 0);
    assert(is_digit(s[3]) && is_digit(s[2]) && is_digit(s[1]) && is_digit(s[0]));
    assert(s3.last() == s[2] && s2.last() == s[1] && s1.last() == s[0]);
    assert(digits_value(s1.drop_last()) == 0);
    assert(digits_value(s1) <= 9);
    assert(digits_value(s2) <= 99);
    assert(digits_value(s3) <= 999);
}

/// Value of the four leading digits of `name`, if it has them.
fn number_prefix_exec(name: &[char]) -> (r: Option<u32>)
    ensures
        match number_prefix(name@) {
            Some(v) => r == Some(v as u32),
            None => r is None,
        },
{
    if name.len() < 4 {
        return None;
    }
    let ghost p = name@.subrange(0, 4);
    let mut v: u32 = 0;
    let mut i: usize = 0;
    while i < 4
        invariant
            i <= 4 <= name@.len(),
            p == name@.subrange(0, 4),
            all_digits(p.subrange(0, i as int)),
            v as nat == digits_value(p.subrange(0, i as int)),
            v < 10000,
            (i == 0 ==> v == 0) && (i <= 3 ==> v < 1000) && (i <= 2 ==> v < 100) && (i <= 1 ==> v
                < 10),
        decreases 4 - i,
    {
        let c = name[i];
        if !digit_exec(c) {
            assert(p[i as int] == c);
            assert(!all_digits(p));
            return None;
        }
        assert(p.subrange(0, i + 1).drop_last() =~= p.subrange(0, i as int));
        assert(p.subrange(0, i + 1).last() == c);
        v = v * 10 + (c as u32 - 48);
        i = i + 1;
    }
    assert(p.subrange(0, 4) =~= p);
    Some(v)
}

/// The number of the next record: one more than the largest four-digit prefix among the
/// directory's file names, or 1 when none has one.
pub fn next_record_number(store: &RecordStore) -> (r: u32)
    ensures
        r as nat == max_prefix(store@, store@.len() as int) + 1,
        forall|j: int|
            0 <= j < store@.len() && #[trigger] number_prefix(store@[j].0) is Some ==> number_prefix(
                store@[j].0,
            )->0 < r,
        r == 1 || exists|j: int|
            0 <= j < store@.len() && #[trigger] number_prefix(store@[j].0) == Some((r - 1) as nat),
{
    let mut max: u32 = 0;
    let mut i: usize = 0;
    while i < store.files.len()
        invariant
            i <= store@.len(),
            store@.len() == store.files@.len(),
            max as nat == max_prefix(store@, i as int),
            max <= 9999,
        decreases store@.len() - i,
    {
        let name = chars_of(store.files[i].name.as_str());
        assert(store@[i as int].0 == store.files@[i as int].name@);
        proof {
            lemma_max_prefix(store@, i + 1);
        }
        match number_prefix_exec(&name) {
            Some(v) => {
                if v > max {
                    max = v;
                }
            },
            None => {},
        }
        i = i + 1;
    }
    proof {
        lemma_max_prefix(store@, store@.len() as int);
    }
    max + 1
}

/// The file name of record `number` with slug `slug` in format `format`.
pub open spec fn record_name(number: nat, slug: Seq<char>, format: Seq<char>) -> Seq<char> {
    padded4(number) + seq!['-'] + slug + seq!['.'] + format
}

/// A record's file name is four or more digits that spell its number, a hyphen, the slug,
/// a dot and the format: with a non-empty slug and the format `md` or `rst`, a name of the
/// shape `^\d{4,}-.+\.(md|rst)$`.
pub proof fn lemma_record_name_shape(number: nat, slug: Seq<char>, format: Seq<char>)
    requires
        slug.len() > 0,
        format == seq!['m', 'd'] || format == seq!['r', 's', 't'],
    ensures
        ({
            let name = record_name(number, slug, format);
            let d = padded4(number).len() as int;
            &&& d >= 4
            &&& all_digits(name.subrange(0, d))
            &&& digits_value(name.subrange(0, d)) == number
            &&& name[d] == '-'
            &&& name.subrange(d + 1, name.len() - format.len() - 1).len() > 0
            &&& name[name.len() - format.len() - 1] == '.'
            &&& name.subrange(name.len() - format.len(), name.len() as int) == format
        }),
{
    crate::text::lemma_padded4(number);
    let name = record_name(number, slug, format);
    let d = padded4(number).len() as int;
    assert(name.subrange(0, d) =~= padded4(number));
    assert(name.subrange(name.len() - format.len(), name.len() as int) =~= format);
}

/// The file name `NNNN-slug.format` of record `number`.
pub fn record_file_name(number: u32, slug: &str, format: &str) -> (r: String)
    ensures
        r@ == record_name(number as nat, slug@, format@),
{
    let mut out = padded4_chars(number);
    out.push('-');
    push_all(&mut out, &chars_of(slug));
    out.push('.');
    push_all(&mut out, &chars_of(format));
    assert(out@ =~= record_name(number as nat, slug@, format@));
    string_of(&out)
}

} // verus!
