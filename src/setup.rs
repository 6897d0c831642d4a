//! Text that setting up a record directory writes: the default templates and the
//! configuration file.
use vstd::prelude::*;
use crate::config::Config;
use crate::text::{chars_of, occurs_at, occurs_at_exec, push_all, string_of};
use crate::translation::TranslationTable;

verus! {

pub open spec fn english_md() -> Seq<char> {
    "# NUMBER. TITLE\n\nDate: DATE\n\n## Status\n\nSTATUS\n\n## Context\n\nThis is the context.\n\n## Decision\n\nThis is the decision that was made.\n\n## Consequence\n\nThis is the consequence of the decision.\n"@
}

pub open spec fn english_rst() -> Seq<char> {
    "#################\nNUMBER. TITLE\n#################\n\nDate: DATE\n\n******\nStatus\n******\n\nSTATUS\n\n*******\nContext\n*******\n\nThis is the context.\n\n********\nDecision\n********\n\nThis is the decision that was made.\n\n***********\nConsequence\n***********\n\nThis is the consequence of the decision.\n"@
}

pub open spec fn french_md() -> Seq<char> {
    "# NUMBER. TITLE\n\nDate: DATE\n\n## Statut\n\nSTATUS\n\n## Le contexte\n\nC'est le Contexte.\n\n## Décision\n\nPris une décision.\n\n## Conséquence\n\nC'est la conséquence de la décision.\n"@
}

pub open spec fn french_ref() -> Seq<char> {
    "Status=\"Statut\"\nContext=\"Le contexte\"\nDecision=\"Décision\"\nConsequence=\"Conséquence\"\nProposed=\"Proposé\"\nApproved=\"Approuvé\"\n"@
}

/// The built-in template for a language and a format (`md`, `rst`, or `ref` for a phrase
/// table): English and French are known, other languages get English.
pub open spec fn builtin_template(language: Seq<char>, format: Seq<char>) -> Option<Seq<char>> {
    if language == "en"@ {
        if format == "md"@ {
            Some(english_md())
        } else if format == "rst"@ {
            Some(english_rst())
        } else {
            None
        }
    } else if language == "fr"@ {
        if format == "md"@ {
            Some(french_md())
        } else if format == "ref"@ {
            Some(french_ref())
        } else {
            None
        }
    } else if format == "md"@ {
        Some(english_md())
    } else if format == "rst"@ {
        Some(english_rst())
    } else {
        None
    }
}

/// The built-in template for `language` and `format`, or `None` where there is none for
/// that pair.
pub fn load_template(language: &str, format: &str) -> (r: Option<String>)
    ensures
        match builtin_template(language@, format@) {
            Some(t) => r is Some && r->0@ == t,
            None => r is None,
        },
{
    let lang = String::from_str(language);
    let fmt = String::from_str(format);
    let en = String::from_str("en");
    let fr = String::from_str("fr");
    let md = String::from_str("md");
    let rst = String::from_str("rst");
    let rf = String::from_str("ref");
    if lang == en {
        if fmt == md {
            Some(String::from_str("# NUMBER. TITLE\n\nDate: DATE\n\n## Status\n\nSTATUS\n\n## Context\n\nThis is the context.\n\n## Decision\n\nThis is the decision that was made.\n\n## Consequence\n\nThis is the consequence of the decision.\n"))
        } else if fmt == rst {
            Some(String::from_str("#################\nNUMBER. TITLE\n#################\n\nDate: DATE\n\n******\nStatus\n******\n\nSTATUS\n\n*******\nContext\n*******\n\nThis is the context.\n\n********\nDecision\n********\n\nThis is the decision that was made.\n\n***********\nConsequence\n***********\n\nThis is the consequence of the decision.\n"))
        } else {
            None
        }
    } else if lang == fr {
        if fmt == md {
            Some(String::from_str("# NUMBER. TITLE\n\nDate: DATE\n\n## Statut\n\nSTATUS\n\n## Le contexte\n\nC'est le Contexte.\n\n## Décision\n\nPris une décision.\n\n## Conséquence\n\nC'est la conséquence de la décision.\n"))
        } else if fmt == rf {
            Some(String::from_str("Status=\"Statut\"\nContext=\"Le contexte\"\nDecision=\"Décision\"\nConsequence=\"Conséquence\"\nProposed=\"Proposé\"\nApproved=\"Approuvé\"\n"))
        } else {
            None
        }
    } else if fmt == md {
        Some(String::from_str("# NUMBER. TITLE\n\nDate: DATE\n\n## Status\n\nSTATUS\n\n## Context\n\nThis is the context.\n\n## Decision\n\nThis is the decision that was made.\n\n## Consequence\n\nThis is the consequence of the decision.\n"))
    } else if fmt == rst {
        Some(String::from_str("#################\nNUMBER. TITLE\n#################\n\nDate: DATE\n\n******\nStatus\n******\n\nSTATUS\n\n*******\nContext\n*******\n\nThis is the context.\n\n********\nDecision\n********\n\nThis is the decision that was made.\n\n***********\nConsequence\n***********\n\nThis is the consequence of the decision.\n"))
    } else {
        None
    }
}

pub open spec fn setting(key: Seq<char>, value: Seq<char>) -> Seq<char> {
    key + seq!['='] + value + seq!['\n']
}

/// The configuration file that set-up writes: the record directory and the template
/// directory, then the language, template and file type where given, then whether new
/// records are proposed by default.
pub open spec fn config_text(
    records: Seq<char>,
    template_directory: Seq<char>,
    language: Seq<char>,
    template_file: Seq<char>,
    format: Seq<char>,
    default_proposed: bool,
) -> Seq<char> {
    setting("records"@, records) + setting("templateDir"@, template_directory) + (if language.len()
        > 0 {
        setting("language"@, language)
    } else {
        seq![]
    }) + (if template_file.len() > 0 {
        setting("template"@, template_file)
    } else {
        seq![]
    }) + (if format.len() > 0 {
        setting("fileType"@, format)
    } else {
        seq![]
    }) + setting(
        "defaultProposed"@,
        if default_proposed {
            "true"@
        } else {
            "false"@
        },
    )
}

fn push_setting(out: &mut Vec<char>, key: &str, value: &str)
    ensures
        final(out)@ == old(out)@ + setting(key@, value@),
{
    push_all(out, &chars_of(key));
    out.push('=');
    push_all(out, &chars_of(value));
    out.push('\n');
    assert(final(out)@ =~= old(out)@ + setting(key@, value@));
}

/// The text of the configuration file for a record directory at `records` (relative to
/// the project root).
pub fn config_file_text(
    records: &str,
    template_directory: &str,
    language: &str,
    template_file: &str,
    format: &str,
    default_proposed: bool,
) -> (r: String)
    ensures
        r@ == config_text(
            records@,
            template_directory@,
            language@,
            template_file@,
            format@,
            default_proposed,
        ),
{
    let mut out: Vec<char> = Vec::new();
    push_setting(&mut out, "records", records);
    push_setting(&mut out, "templateDir", template_directory);
    let ghost base = out@;
    if language.unicode_len() > 0 {
        push_setting(&mut out, "language", language);
    }
    let ghost with_language = out@;
    if template_file.unicode_len() > 0 {
        push_setting(&mut out, "template", template_file);
    }
    let ghost with_template = out@;
    if format.unicode_len() > 0 {
        push_setting(&mut out, "fileType", format);
    }
    if default_proposed {
        push_setting(&mut out, "defaultProposed", "true");
    } else {
        push_setting(&mut out, "defaultProposed", "false");
    }
    assert(out@ =~= config_text(
        records@,
        template_directory@,
        language@,
        template_file@,
        format@,
        default_proposed,
    ));
    string_of(&out)
}

/// The value of a configuration line `key=value` for `key`.
pub open spec fn setting_of(line: Seq<char>, key: Seq<char>) -> Option<Seq<char>> {
    let prefix = key + seq!['='];
    if occurs_at(line, prefix, 0) {
        Some(line.subrange(prefix.len() as int, line.len() as int))
    } else {
        None
    }
}

/// The value of the configuration line `line` if it sets `key` (`key=value`).
pub fn setting_value(line: &str, key: &str) -> (r: Option<String>)
    ensures
        match setting_of(line@, key@) {
            Some(v) => r is Some && r->0@ == v,
            None => r is None,
        },
{
    let l = chars_of(line);
    let mut prefix = chars_of(key);
    prefix.push('=');
    assert(prefix@ =~= key@ + seq!['=']);
    if occurs_at_exec(&l, &prefix, 0) {
        let mut out: Vec<char> = Vec::new();
        let mut i = prefix.len();
        while i < l.len()
            invariant
                prefix@.len() <= i <= l@.len(),
                l@ == line@,
                prefix@ == key@ + seq!['='],
                occurs_at(l@, prefix@, 0),
                out@ == l@.subrange(prefix@.len() as int, i as int),
            decreases l@.len() - i,
        {
            out.push(l[i]);
            i = i + 1;
            assert(out@ =~= l@.subrange(prefix@.len() as int, i as int));
        }
        Some(string_of(&out))
    } else {
        None
    }
}

/// Index of the last `"` in `s` before `end`, or -1.
pub open spec fn last_quote(s: Seq<char>, end: int) -> int
    decreases end,
{
    if end <= 0 || end > s.len() {
        -1
    } else if s[end - 1] == '"' {
        end - 1
    } else {
        last_quote(s, end - 1)
    }
}

/// Index of the last `="` in `s` that starts at or before `at`, or -1.
pub open spec fn last_assign(s: Seq<char>, at: int) -> int
    decreases at + 1,
{
    if at < 0 || at + 2 > s.len() {
        -1
    } else if s[at] == '=' && s[at + 1] == '"' {
        at
    } else {
        last_assign(s, at - 1)
    }
}

/// A line of a phrase table, `key="value"`: the key is what stands before the last `="`
/// that a later `"` closes, the value what stands between them and the last `"`; text after
/// the last `"` ends both. A line without that shape is both key and value.
pub open spec fn reference_entry(line: Seq<char>) -> (Seq<char>, Seq<char>) {
    let q = last_quote(line, line.len() as int);
    let p = last_assign(line, q - 2);
    if q < 0 || p < 0 {
        (line, line)
    } else {
        let tail = line.subrange(q + 1, line.len() as int);
        (line.subrange(0, p) + tail, line.subrange(p + 2, q) + tail)
    }
}

fn sub_chars(s: &[char], from: usize, to: usize) -> (r: Vec<char>)
    requires
        from <= to <= s@.len(),
    ensures
        r@ == s@.subrange(from as int, to as int),
{
    let mut out: Vec<char> = Vec::new();
    let mut i = from;
    while i < to
        invariant
            from <= i <= to <= s@.len(),
            out@ == s@.subrange(from as int, i as int),
        decreases to - i,
    {
        out.push(s[i]);
        i = i + 1;
        assert(out@ =~= s@.subrange(from as int, i as int));
    }
    out
}

/// The key and the value of a phrase-table line (see `reference_entry`).
pub fn parse_reference_line(line: &str) -> (r: (String, String))
    ensures
        (r.0@, r.1@) == reference_entry(line@),
{
    let l = chars_of(line);
    let mut q = l.len();
    while q > 0 && l[q - 1] != '"'
        invariant
            q <= l@.len(),
            last_quote(l@, l@.len() as int) == last_quote(l@, q as int),
        decreases q,
    {
        q = q - 1;
    }
    if q == 0 {
        return (String::from_str(line), String::from_str(line));
    }
    let q = q - 1;
    assert(last_quote(l@, l@.len() as int) == q as int);
    if q < 2 {
        return (String::from_str(line), String::from_str(line));
    }
    let mut p = q - 1;
    while p > 0 && !(l[p - 1] == '=' && l[p] == '"')
        invariant
            1 <= q,
            p <= q - 1,
            q < l@.len(),
            last_assign(l@, q - 2) == last_assign(l@, p - 1),
        decreases p,
    {
        p = p - 1;
    }
    if p == 0 {
        return (String::from_str(line), String::from_str(line));
    }
    let p = p - 1;
    assert(last_assign(l@, q - 2) == p as int);
    let tail = sub_chars(&l, q + 1, l.len());
    let mut key = sub_chars(&l, 0, p);
    push_all(&mut key, &tail);
    let mut value = sub_chars(&l, p + 2, q);
    push_all(&mut value, &tail);
    (string_of(&key), string_of(&value))
}

/// The configuration before any configuration file is read: records and templates in
/// `root`, English, the built-in markdown template, new records approved.
pub fn default_config(root: &str) -> (r: Config)
    ensures
        r.record_path@ == root@,
        r.template_path@ == root@,
        r.template_language@ == "en"@,
        r.template_file@ == "INTERNAL"@,
        r.template_format@ == "md"@,
        r.template_string@ == english_md(),
        r.template_references@ == Seq::<(Seq<char>, Seq<char>)>::empty(),
        r.default_status@ == "Approved"@,
{
    Config {
        record_path: String::from_str(root),
        template_path: String::from_str(root),
        template_language: String::from_str("en"),
        template_file: String::from_str("INTERNAL"),
        template_format: String::from_str("md"),
        template_string: String::from_str("# NUMBER. TITLE\n\nDate: DATE\n\n## Status\n\nSTATUS\n\n## Context\n\nThis is the context.\n\n## Decision\n\nThis is the decision that was made.\n\n## Consequence\n\nThis is the consequence of the decision.\n"),
        template_references: TranslationTable::new(),
        default_status: String::from_str("Approved"),
    }
}

} // verus!
