//! Character-level helpers shared by the document editor and the record store.
use vstd::prelude::*;
use vstd::std_specs::iter::IteratorSpec;

verus! {

/// The white space of Unicode's `White_Space` property.
pub open spec fn is_space(c: char) -> bool {
    let u = c as u32;
    ||| 9 <= u <= 13
    ||| u == 32
    ||| u == 0x85
    ||| u == 0xA0
    ||| u == 0x1680
    ||| 0x2000 <= u <= 0x200A
    ||| u == 0x2028
    ||| u == 0x2029
    ||| u == 0x202F
    ||| u == 0x205F
    ||| u == 0x3000
}

pub fn space_char(c: char) -> (r: bool)
    ensures
        r == is_space(c),
{
    let u = c as u32;
    (9 <= u && u <= 13) || u == 32 || u == 0x85 || u == 0xA0 || u == 0x1680 || (0x2000 <= u
        && u <= 0x200A) || u == 0x2028 || u == 0x2029 || u == 0x202F || u == 0x205F || u
        == 0x3000
}

pub open spec fn is_digit(c: char) -> bool {
    48 <= (c as u32) <= 57
}

pub fn digit_exec(c: char) -> (r: bool)
    ensures
        r == is_digit(c),
{
    let u = c as u32;
    48 <= u && u <= 57
}

pub open spec fn all_space(s: Seq<char>) -> bool {
    forall|i: int| 0 <= i < s.len() ==> is_space(#[trigger] s[i])
}

pub open spec fn all_digits(s: Seq<char>) -> bool {
    forall|i: int| 0 <= i < s.len() ==> is_digit(#[trigger] s[i])
}

/// The characters of `s` in order.
pub fn chars_of(s: &str) -> (r: Vec<char>)
    ensures
        r@ == s@,
{
    let mut it = s.chars();
    let mut out: Vec<char> = Vec::new();
    loop
        invariant
            out@ + it.remaining() == s@,
            it.decrease() is Some,
        ensures
            out@ == s@,
        decreases it.decrease()->0,
    {
        match it.next() {
            Some(c) => {
                out.push(c);
            },
            None => {
                assert(out@ =~= s@);
                break;
            },
        }
    }
    out
}

/// Relies on `String::from_iter` over `&char`: the string of the characters `v`, in order.
#[verifier::external_body]
pub(crate) fn string_of(v: &[char]) -> (r: String)
    ensures
        r@ == v@,
{
    String::from_iter(v)
}

/// Appends `s` to `out`.
pub fn push_all(out: &mut Vec<char>, s: &[char])
    ensures
        final(out)@ == old(out)@ + s@,
{
    let mut i: usize = 0;
    while i < s.len()
        invariant
            i <= s@.len(),
            out@ == old(out)@ + s@.subrange(0, i as int),
        decreases s@.len() - i,
    {
        out.push(s[i]);
        i = i + 1;
        assert(s@.subrange(0, i as int) =~= s@.subrange(0, i - 1) + seq![s@[i - 1]]);
    }
    assert(s@.subrange(0, s@.len() as int) =~= s@);
}

/// Whether `p` occurs in `s` at position `k`.
pub open spec fn occurs_at(s: Seq<char>, p: Seq<char>, k: int) -> bool {
    0 <= k && k + p.len() <= s.len() && s.subrange(k, k + p.len()) == p
}

pub fn occurs_at_exec(s: &[char], p: &[char], k: usize) -> (r: bool)
    ensures
        r == occurs_at(s@, p@, k as int),
{
    if k > s.len() || p.len() > s.len() - k {
        return false;
    }
    let mut j: usize = 0;
    while j < p.len()
        invariant
            k + p@.len() <= s@.len(),
            j <= p@.len(),
            forall|t: int| 0 <= t < j ==> s@[k + t] == p@[t],
        decreases p@.len() - j,
    {
        assert(k + j < s.len());
        if s[k + j] != p[j] {
            assert(s@.subrange(k as int, k + p@.len())[j as int] != p@[j as int]);
            return false;
        }
        j = j + 1;
    }
    assert(s@.subrange(k as int, k + p@.len()) =~= p@);
    true
}

/// The characters of `s` with one line terminator's carriage return taken off the end.
pub open spec fn strip_cr(s: Seq<char>) -> Seq<char> {
    if s.len() > 0 && s.last() == '\r' {
        s.drop_last()
    } else {
        s
    }
}

/// Lines read so far from `s`, and the unfinished line after the last line feed.
pub open spec fn lines_acc(s: Seq<char>) -> (Seq<Seq<char>>, Seq<char>)
    decreases s.len(),
{
    if s.len() == 0 {
        (seq![], seq![])
    } else {
        let (done, cur) = lines_acc(s.drop_last());
        if s.last() == '\n' {
            (done.push(strip_cr(cur)), seq![])
        } else {
            (done, cur.push(s.last()))
        }
    }
}

/// The lines of a text: split at each line feed, a carriage return before the line feed
/// dropped, and no empty line after a final line feed.
pub open spec fn lines_of(s: Seq<char>) -> Seq<Seq<char>> {
    let (done, cur) = lines_acc(s);
    if cur.len() == 0 {
        done
    } else {
        done.push(cur)
    }
}

pub open spec fn views(v: Seq<Vec<char>>) -> Seq<Seq<char>> {
    v.map_values(|l: Vec<char>| l@)
}

pub fn split_lines(s: &[char]) -> (r: Vec<Vec<char>>)
    ensures
        views(r@) == lines_of(s@),
{
    let mut done: Vec<Vec<char>> = Vec::new();
    let mut cur: Vec<char> = Vec::new();
    let mut i: usize = 0;
    while i < s.len()
        invariant
            i <= s@.len(),
            (views(done@), cur@) == lines_acc(s@.subrange(0, i as int)),
        decreases s@.len() - i,
    {
        let c = s[i];
        assert(s@.subrange(0, i + 1).drop_last() =~= s@.subrange(0, i as int));
        if c == '\n' {
            if cur.len() > 0 && cur[cur.len() - 1] == '\r' {
                cur.pop();
            }
            done.push(cur);
            cur = Vec::new();
        } else {
            cur.push(c);
        }
        assert(views(done@) =~= lines_acc(s@.subrange(0, i + 1)).0);
        assert(cur@ =~= lines_acc(s@.subrange(0, i + 1)).1);
        i = i + 1;
    }
    assert(s@.subrange(0, s@.len() as int) =~= s@);
    if cur.len() > 0 {
        done.push(cur);
        assert(views(done@) =~= lines_of(s@));
    }
    done
}

/// Decimal digits of `n`, without leading zeros.
pub open spec fn decimal(n: nat) -> Seq<char>
    decreases n,
{
    if n < 10 {
        seq![digit_char(n)]
    } else {
        decimal(n / 10).push(digit_char(n % 10))
    }
}

pub open spec fn digit_char(d: nat) -> char {
    if d == 0 {
        '0'
    } else if d == 1 {
        '1'
    } else if d == 2 {
        '2'
    } else if d == 3 {
        '3'
    } else if d == 4 {
        '4'
    } else if d == 5 {
        '5'
    } else if d == 6 {
        '6'
    } else if d == 7 {
        '7'
    } else if d == 8 {
        '8'
    } else {
        '9'
    }
}

fn digit_char_exec(d: u32) -> (c: char)
    requires
        d < 10,
    ensures
        c == digit_char(d as nat),
{
    if d == 0 {
        '0'
    } else if d == 1 {
        '1'
    } else if d == 2 {
        '2'
    } else if d == 3 {
        '3'
    } else if d == 4 {
        '4'
    } else if d == 5 {
        '5'
    } else if d == 6 {
        '6'
    } else if d == 7 {
        '7'
    } else if d == 8 {
        '8'
    } else {
        '9'
    }
}

/// Value of a string of decimal digits.
pub open spec fn digits_value(s: Seq<char>) -> nat
    decreases s.len(),
{
    if s.len() == 0 {
        0
    } else {
        digits_value(s.drop_last()) * 10 + ((s.last() as u32) - 48) as nat
    }
}

/// `n` in decimal, padded on the left with zeros to at least four digits.
pub open spec fn padded4(n: nat) -> Seq<char> {
    let d = decimal(n);
    if d.len() < 4 {
        Seq::new((4 - d.len()) as nat, |i: int| '0') + d
    } else {
        d
    }
}

proof fn lemma_digit_char(k: nat)
    requires
        k < 10,
    ensures
        digit_char(k) as u32 == k + 48,
{
}

pub proof fn lemma_decimal(n: nat)
    ensures
        decimal(n).len() >= 1,
        all_digits(decimal(n)),
        digits_value(decimal(n)) == n,
    decreases n,
{
    if n < 10 {
        lemma_digit_char(n);
        let d = decimal(n);
        assert(d.drop_last() =~= Seq::<char>::empty());
        assert(digits_value(d.drop_last()) == 0);
        assert(d.last() == digit_char(n));
    } else {
        lemma_decimal(n / 10);
        lemma_digit_char(n % 10);
        let d = decimal(n);
        assert(d.last() == digit_char(n % 10));
        assert(d.drop_last() =~= decimal(n / 10));
        assert(digits_value(d) == digits_value(decimal(n / 10)) * 10 + n % 10);
        assert(n == (n / 10) * 10 + n % 10);
        assert(d.drop_last() =~= decimal(n / 10));
        assert forall|i: int| 0 <= i < d.len() implies is_digit(#[trigger] d[i]) by {
            if i < d.len() - 1 {
                assert(d[i] == decimal(n / 10)[i]);
            }
        }
    }
}

proof fn lemma_zeros_value(z: Seq<char>)
    requires
        forall|i: int| 0 <= i < z.len() ==> z[i] == '0',
    ensures
        digits_value(z) == 0,
    decreases z.len(),
{
    if z.len() > 0 {
        lemma_zeros_value(z.drop_last());
    }
}

proof fn lemma_zeros_prefix(z: Seq<char>, d: Seq<char>)
    requires
        forall|i: int| 0 <= i < z.len() ==> z[i] == '0',
    ensures
        digits_value(z + d) == digits_value(d),
    decreases d.len(),
{
    if d.len() == 0 {
        assert(z + d =~= z);
        lemma_zeros_value(z);
    } else {
        lemma_zeros_prefix(z, d.drop_last());
        assert((z + d).drop_last() =~= z + d.drop_last());
    }
}

/// The padded number is four or more digits, whose value is the number.
pub proof fn lemma_padded4(n: nat)
    ensures
        padded4(n).len() >= 4,
        all_digits(padded4(n)),
        digits_value(padded4(n)) == n,
{
    lemma_decimal(n);
    let d = decimal(n);
    if d.len() < 4 {
        let z = Seq::new((4 - d.len()) as nat, |i: int| '0');
        lemma_zeros_prefix(z, d);
        let p = z + d;
        assert forall|i: int| 0 <= i < p.len() implies is_digit(#[trigger] p[i]) by {
            if i >= z.len() {
                assert(p[i] == d[i - z.len()]);
            }
        }
    }
}

pub fn decimal_chars(n: u32) -> (r: Vec<char>)
    ensures
        r@ == decimal(n as nat),
    decreases n,
{
    if n < 10 {
        let c = digit_char_exec(n);
        vec![c]
    } else {
        let mut r = decimal_chars(n / 10);
        let c = digit_char_exec(n % 10);
        r.push(c);
        r
    }
}

pub fn padded4_chars(n: u32) -> (r: Vec<char>)
    ensures
        r@ == padded4(n as nat),
{
    let d = decimal_chars(n);
    if d.len() < 4 {
        let mut r: Vec<char> = Vec::new();
        let pad: usize = 4 - d.len();
        let mut i: usize = 0;
        while i < pad
            invariant
                i <= pad,
                pad == 4 - d@.len(),
                r@ =~= Seq::new(i as nat, |j: int| '0'),
            decreases pad - i,
        {
            r.push('0');
            i = i + 1;
        }
        push_all(&mut r, &d);
        r
    } else {
        d
    }
}

/// `s` with every occurrence of `p` (a non-empty pattern) replaced by `rep`, scanning from
/// the left without overlaps.
pub open spec fn replace_all(s: Seq<char>, p: Seq<char>, rep: Seq<char>) -> Seq<char>
    decreases s.len(),
{
    if p.len() == 0 || s.len() < p.len() {
        s
    } else if s.subrange(0, p.len() as int) == p {
        rep + replace_all(s.subrange(p.len() as int, s.len() as int), p, rep)
    } else {
        seq![s[0]] + replace_all(s.drop_first(), p, rep)
    }
}

/// Whether `q` occurs somewhere in `s`.
pub open spec fn contains(s: Seq<char>, q: Seq<char>) -> bool {
    exists|k: int| occurs_at(s, q, k)
}

/// No placement of `q` that overlaps `v` agrees with `v` on the overlap: wherever `v` is
/// written, no occurrence of `q` can cover any of its characters.
pub open spec fn no_overlap(v: Seq<char>, q: Seq<char>) -> bool {
    forall|d: int| -q.len() < d < v.len() ==> #[trigger] misaligned(v, q, d)
}

/// `q`, placed so that its character `i` falls on character `d + i` of `v`, disagrees with
/// `v` somewhere on their overlap.
pub open spec fn misaligned(v: Seq<char>, q: Seq<char>, d: int) -> bool {
    exists|i: int| 0 <= i < q.len() && 0 <= d + i < v.len() && q[i] != v[d + i]
}

/// A prefix of `replace_all(x, p, v)` is a prefix of `x`, unless a copy of `v` starts
/// inside it.
proof fn lemma_replace_prefix(x: Seq<char>, p: Seq<char>, v: Seq<char>, m: int)
    requires
        p.len() > 0,
        v.len() > 0,
        0 <= m <= replace_all(x, p, v).len(),
    ensures
        (m <= x.len() && replace_all(x, p, v).subrange(0, m) == x.subrange(0, m)) || exists|j: int|
            0 <= j < m && j + v.len() <= replace_all(x, p, v).len() && #[trigger] replace_all(
                x,
                p,
                v,
            ).subrange(j, j + v.len()) == v,
    decreases x.len(),
{
    let r = replace_all(x, p, v);
    if m == 0 {
        assert(r.subrange(0, 0) =~= x.subrange(0, 0));
    } else if x.len() < p.len() {
        assert(r.subrange(0, m) =~= x.subrange(0, m));
    } else if x.subrange(0, p.len() as int) == p {
        let rest = replace_all(x.subrange(p.len() as int, x.len() as int), p, v);
        assert(r == v + rest);
        assert(r.subrange(0, 0 + v.len() as int) =~= v);
        assert(0 < m && 0 + v.len() <= r.len());
    } else {
        let t = x.drop_first();
        let rt = replace_all(t, p, v);
        assert(r == seq![x[0]] + rt);
        lemma_replace_prefix(t, p, v, m - 1);
        if m - 1 <= t.len() && rt.subrange(0, m - 1) == t.subrange(0, m - 1) {
            assert(r.subrange(0, m) =~= seq![x[0]] + rt.subrange(0, m - 1));
            assert(x.subrange(0, m) =~= seq![x[0]] + t.subrange(0, m - 1));
        } else {
            let j = choose|j: int|
                0 <= j < m - 1 && j + v.len() <= rt.len() && #[trigger] rt.subrange(j, j + v.len())
                    == v;
            assert(r.subrange(j + 1, j + 1 + v.len()) =~= rt.subrange(j, j + v.len()));
            assert(0 <= j + 1 < m && j + 1 + v.len() <= r.len());
        }
    }
}

proof fn lemma_suffix_occurrence(s: Seq<char>, q: Seq<char>, a: int, k: int)
    requires
        0 <= a <= s.len(),
        occurs_at(s.subrange(a, s.len() as int), q, k),
    ensures
        occurs_at(s, q, a + k),
{
    assert(s.subrange(a + k, a + k + q.len()) =~= s.subrange(a, s.len() as int).subrange(
        k,
        k + q.len(),
    ));
}

/// Replacing `p` by `v` leaves no occurrence of `q`, where `q` is `p` or `s` holds no `q`,
/// and no occurrence of `q` can overlap a copy of `v`.
pub proof fn lemma_replace_leaves_no(s: Seq<char>, p: Seq<char>, v: Seq<char>, q: Seq<char>)
    requires
        p.len() > 0,
        v.len() > 0,
        q.len() > 0,
        no_overlap(v, q),
        q == p || !contains(s, q),
    ensures
        !contains(replace_all(s, p, v), q),
    decreases s.len(),
{
    let r = replace_all(s, p, v);
    if s.len() < p.len() {
        if q == p {
            assert forall|k: int| !occurs_at(s, q, k) by {}
        }
    } else if s.subrange(0, p.len() as int) == p {
        let s2 = s.subrange(p.len() as int, s.len() as int);
        let r2 = replace_all(s2, p, v);
        assert(r == v + r2);
        if q != p && contains(s2, q) {
            let k = choose|k: int| occurs_at(s2, q, k);
            lemma_suffix_occurrence(s, q, p.len() as int, k);
        }
        lemma_replace_leaves_no(s2, p, v, q);
        assert forall|k: int| !occurs_at(r, q, k) by {
            if occurs_at(r, q, k) {
                if k >= v.len() {
                    assert(r2.subrange(k - v.len(), k - v.len() + q.len()) =~= r.subrange(
                        k,
                        k + q.len(),
                    ));
                    assert(occurs_at(r2, q, k - v.len()));
                } else {
                    assert(misaligned(v, q, k));
                    let i = choose|i: int|
                        0 <= i < q.len() && 0 <= k + i < v.len() && q[i] != v[k + i];
                    assert(r.subrange(k, k + q.len())[i] == r[k + i]);
                }
            }
        }
    } else {
        let t = s.drop_first();
        let rt = replace_all(t, p, v);
        assert(r == seq![s[0]] + rt);
        if q != p && contains(t, q) {
            let k = choose|k: int| occurs_at(t, q, k);
            assert(t =~= s.subrange(1, s.len() as int));
            lemma_suffix_occurrence(s, q, 1, k);
        }
        lemma_replace_leaves_no(t, p, v, q);
        assert forall|k: int| !occurs_at(r, q, k) by {
            if occurs_at(r, q, k) {
                if k >= 1 {
                    assert(rt.subrange(k - 1, k - 1 + q.len()) =~= r.subrange(k, k + q.len()));
                    assert(occurs_at(rt, q, k - 1));
                } else {
                    let m = q.len() - 1;
                    lemma_replace_prefix(t, p, v, m);
                    if m <= t.len() && rt.subrange(0, m) == t.subrange(0, m) {
                        assert(r.subrange(0, q.len() as int) =~= seq![s[0]] + rt.subrange(0, m));
                        assert(s.subrange(0, q.len() as int) =~= seq![s[0]] + t.subrange(0, m));
                        assert(s.subrange(0, q.len() as int) =~= r.subrange(0, q.len() as int));
                        assert(occurs_at(s, q, 0));
                    } else {
                        let j = choose|j: int|
                            0 <= j < m && j + v.len() <= rt.len() && #[trigger] rt.subrange(
                                j,
                                j + v.len(),
                            ) == v;
                        let d = -(1 + j);
                        assert(misaligned(v, q, d));
                        let i = choose|i: int|
                            0 <= i < q.len() && 0 <= d + i < v.len() && q[i] != v[d + i];
                        assert(r.subrange(0, q.len() as int)[i] == r[i]);
                        assert(rt.subrange(j, j + v.len())[d + i] == rt[i - 1]);
                    }
                }
            }
        }
    }
}

pub fn replace_all_exec(s: &[char], p: &[char], rep: &[char]) -> (r: Vec<char>)
    requires
        p@.len() > 0,
    ensures
        r@ == replace_all(s@, p@, rep@),
{
    let mut out: Vec<char> = Vec::new();
    let mut i: usize = 0;
    assert(s@.subrange(0, s@.len() as int) =~= s@);
    assert(out@ + s@ =~= s@);
    while i < s.len()
        invariant
            i <= s@.len(),
            p@.len() > 0,
            out@ + replace_all(s@.subrange(i as int, s@.len() as int), p@, rep@) == replace_all(
                s@,
                p@,
                rep@,
            ),
        decreases s@.len() - i,
    {
        let rest = Ghost(s@.subrange(i as int, s@.len() as int));
        if occurs_at_exec(s, p, i) {
            assert(rest@.subrange(0, p@.len() as int) =~= s@.subrange(i as int, i + p@.len()));
            assert(rest@.subrange(p@.len() as int, rest@.len() as int) =~= s@.subrange(
                i + p@.len(),
                s@.len() as int,
            ));
            let ghost before = out@;
            push_all(&mut out, rep);
            i = i + p.len();
            assert(out@ + replace_all(s@.subrange(i as int, s@.len() as int), p@, rep@) =~= before
                + replace_all(rest@, p@, rep@));
        } else {
            proof {
                if rest@.len() >= p@.len() {
                    assert(rest@.subrange(0, p@.len() as int) =~= s@.subrange(
                        i as int,
                        i + p@.len(),
                    ));
                }
            }
            assert(rest@.drop_first() =~= s@.subrange(i + 1, s@.len() as int));
            let ghost before = out@;
            out.push(s[i]);
            i = i + 1;
            assert(out@ + replace_all(s@.subrange(i as int, s@.len() as int), p@, rep@) =~= before
                + replace_all(rest@, p@, rep@));
        }
    }
    assert(s@.subrange(s@.len() as int, s@.len() as int) =~= Seq::<char>::empty());
    assert(out@ + Seq::<char>::empty() =~= out@);
    out
}

} // verus!
