//! What appending to a status block does: the injected line and a blank line go right
//! before the line that closes the block, whatever the block already holds, so appending
//! the same line twice leaves two copies of it.
use vstd::prelude::*;
use crate::status_block::{
    closes_block, dialect_of, drop_lead, edit_run, edit_step, initial_state, is_md_heading_of,
    is_md_section, is_pruned, rewritten, starts_after_space, tail_insert, trim_end, Dialect,
    EditParams,
};
use crate::text::{all_space, lines_acc, lines_of, occurs_at, strip_cr};

verus! {

/// The text of `ls`, each line ended by a line feed.
pub open spec fn join(ls: Seq<Seq<char>>) -> Seq<char>
    decreases ls.len(),
{
    if ls.len() == 0 {
        seq![]
    } else {
        join(ls.drop_last()) + ls.last() + seq!['\n']
    }
}

/// A line that a text can hold: no line feed, and no carriage return at its end.
pub open spec fn plain_line(l: Seq<char>) -> bool {
    no_line_feed(l) && (l.len() == 0 || l.last() != '\r')
}

pub open spec fn no_line_feed(l: Seq<char>) -> bool {
    forall|i: int| 0 <= i < l.len() ==> l[i] != '\n'
}

/// `s` is `a`, then `m`, then `b`.
pub open spec fn split_around(s: Seq<char>, a: Seq<char>, m: Seq<char>, b: Seq<char>) -> bool {
    s == a + m + b
}

pub open spec fn appending(p: EditParams) -> bool {
    !p.start_of_block && !p.replace_block
}

/// The lines that an append writes for the input lines `ls`.
pub open spec fn out_lines(p: EditParams, ls: Seq<Seq<char>>) -> Seq<Seq<char>>
    decreases ls.len(),
{
    if ls.len() == 0 {
        seq![]
    } else {
        let st = edit_run(p, ls.drop_last());
        let prev = out_lines(p, ls.drop_last());
        let x = ls.last();
        if is_pruned(x, p.prunes) || (st.last.len() == 0 && x.len() == 0) {
            prev
        } else if !st.after_block && st.in_block && closes_block(p.dialect, x) {
            prev + seq![p.inject, seq![], x]
        } else {
            prev.push(x)
        }
    }
}

proof fn lemma_join_push(ls: Seq<Seq<char>>, x: Seq<char>)
    ensures
        join(ls.push(x)) == join(ls) + x + seq!['\n'],
{
    assert(ls.push(x).drop_last() =~= ls);
}

proof fn lemma_join_three(ls: Seq<Seq<char>>, a: Seq<char>, b: Seq<char>, c: Seq<char>)
    ensures
        join(ls + seq![a, b, c]) == join(ls) + a + seq!['\n'] + b + seq!['\n'] + c + seq!['\n'],
{
    assert(ls + seq![a, b, c] =~= ls.push(a).push(b).push(c));
    lemma_join_push(ls.push(a).push(b), c);
    lemma_join_push(ls.push(a), b);
    lemma_join_push(ls, a);
}

/// The text an append writes is the text of its lines.
proof fn lemma_out_is_join(p: EditParams, ls: Seq<Seq<char>>)
    requires
        appending(p),
    ensures
        edit_run(p, ls).out == join(out_lines(p, ls)),
    decreases ls.len(),
{
    if ls.len() > 0 {
        let pre = ls.drop_last();
        lemma_out_is_join(p, pre);
        let prev = out_lines(p, pre);
        let x = ls.last();
        lemma_join_push(prev, x);
        lemma_join_three(prev, p.inject, seq![], x);
        let st = edit_run(p, pre);
        if !(is_pruned(x, p.prunes) || (st.last.len() == 0 && x.len() == 0)) {
            if !st.after_block && st.in_block && closes_block(p.dialect, x) {
                assert(edit_run(p, ls).out =~= join(prev) + p.inject + seq!['\n'] + seq![]
                    + seq!['\n'] + x + seq!['\n']);
            } else {
                assert(edit_run(p, ls).out =~= join(prev) + x + seq!['\n']);
            }
        }
    }
}

proof fn lemma_lines_acc_append(s: Seq<char>, w: Seq<char>)
    requires
        no_line_feed(w),
    ensures
        lines_acc(s + w) == (lines_acc(s).0, lines_acc(s).1 + w),
    decreases w.len(),
{
    if w.len() == 0 {
        assert(s + w =~= s);
        assert(lines_acc(s).1 + w =~= lines_acc(s).1);
    } else {
        lemma_lines_acc_append(s, w.drop_last());
        assert((s + w).drop_last() =~= s + w.drop_last());
        assert((lines_acc(s).1 + w.drop_last()).push(w.last()) =~= lines_acc(s).1 + w);
    }
}

/// Reading the lines of the text of `ls` gives `ls` back.
proof fn lemma_lines_of_join(ls: Seq<Seq<char>>)
    requires
        forall|i: int| 0 <= i < ls.len() ==> plain_line(#[trigger] ls[i]),
    ensures
        lines_acc(join(ls)) == (ls, Seq::<char>::empty()),
        lines_of(join(ls)) == ls,
    decreases ls.len(),
{
    if ls.len() > 0 {
        let pre = ls.drop_last();
        let l = ls.last();
        assert(plain_line(ls[ls.len() - 1]));
        lemma_lines_of_join(pre);
        lemma_lines_acc_append(join(pre), l);
        let t = join(ls);
        assert(t.drop_last() =~= join(pre) + l);
        assert(Seq::<char>::empty() + l =~= l);
        assert(strip_cr(l) == l);
        assert(pre.push(l) =~= ls);
    }
}

proof fn lemma_lines_acc_plain(s: Seq<char>)
    ensures
        forall|i: int|
            0 <= i < lines_acc(s).0.len() ==> no_line_feed(#[trigger] lines_acc(s).0[i]),
        no_line_feed(lines_acc(s).1),
    decreases s.len(),
{
    if s.len() > 0 {
        lemma_lines_acc_plain(s.drop_last());
        let (done, cur) = lines_acc(s.drop_last());
        if s.last() == '\n' {
            assert forall|i: int| 0 <= i < done.push(strip_cr(cur)).len() implies no_line_feed(
                #[trigger] done.push(strip_cr(cur))[i],
            ) by {
                if i < done.len() {
                    assert(done.push(strip_cr(cur))[i] == done[i]);
                }
            }
        } else {
            assert(no_line_feed(cur.push(s.last())));
        }
    }
}

/// An append keeps plain lines plain.
proof fn lemma_out_lines_plain(p: EditParams, ls: Seq<Seq<char>>)
    requires
        forall|i: int| 0 <= i < ls.len() ==> plain_line(#[trigger] ls[i]),
        plain_line(p.inject),
    ensures
        forall|i: int| 0 <= i < out_lines(p, ls).len() ==> plain_line(#[trigger] out_lines(p, ls)[i]),
    decreases ls.len(),
{
    if ls.len() > 0 {
        let pre = ls.drop_last();
        assert forall|i: int| 0 <= i < pre.len() implies plain_line(#[trigger] pre[i]) by {
            assert(pre[i] == ls[i]);
        }
        lemma_out_lines_plain(p, pre);
        let x = ls.last();
        let prev = out_lines(p, pre);
        assert(plain_line(ls[ls.len() - 1]));
        assert(plain_line(Seq::<char>::empty()));
        let o = out_lines(p, ls);
        assert forall|i: int| 0 <= i < o.len() implies plain_line(#[trigger] o[i]) by {
            if i < prev.len() {
                if o == prev.push(x) {
                    assert(o[i] == prev[i]);
                } else if o == prev + seq![p.inject, seq![], x] {
                    assert(o[i] == prev[i]);
                }
            } else if o == prev + seq![p.inject, Seq::<char>::empty(), x] {
                assert(o[i] == seq![p.inject, Seq::<char>::empty(), x][i - prev.len()]);
            }
        }
    }
}

proof fn lemma_closing_line_not_empty(d: Dialect, x: Seq<char>)
    ensures
        closes_block(d, x) ==> x.len() > 0,
        !closes_block(d, Seq::<char>::empty()),
{
    let e = Seq::<char>::empty();
    assert(drop_lead(e, false) == e);
    assert(trim_end(e) == e);
    if x.len() == 0 {
        assert(x =~= e);
    }
}

/// Where the first pass stands after the first `n` input lines, the second pass, over the
/// lines the first one wrote, stands alike, but for one more copy of the appended text once
/// the block is closed.
#[verifier::rlimit(60)]
proof fn lemma_second_pass(p: EditParams, ls: Seq<Seq<char>>, n: int)
    requires
        appending(p),
        0 <= n <= ls.len(),
        p.inject.len() > 0,
        !is_pruned(p.inject, p.prunes),
        !is_pruned(Seq::<char>::empty(), p.prunes),
    ensures
        ({
            let st1 = edit_run(p, ls.subrange(0, n));
            let st2 = edit_run(p, out_lines(p, ls.subrange(0, n)));
            let m = tail_insert(p);
            &&& st2.in_block == st1.in_block
            &&& st2.found_heading == st1.found_heading
            &&& st2.after_block == st1.after_block
            &&& st2.last == st1.last
            &&& !st1.after_block ==> st2.out == st1.out
            &&& st1.after_block ==> exists|a: Seq<char>, b: Seq<char>|
                #[trigger] split_around(st1.out, a, m, b) && split_around(st2.out, a, m + m, b)
        }),
    decreases n,
{
    let m = tail_insert(p);
    if n == 0 {
        assert(ls.subrange(0, 0) =~= Seq::<Seq<char>>::empty());
    } else {
        lemma_second_pass(p, ls, n - 1);
        let pre = ls.subrange(0, n - 1);
        let cur = ls.subrange(0, n);
        assert(cur.drop_last() =~= pre);
        let x = ls[n - 1];
        assert(cur.last() == x);
        let st1p = edit_run(p, pre);
        let op = out_lines(p, pre);
        let st2p = edit_run(p, op);
        let st1 = edit_run(p, cur);
        assert(st1 == edit_step(p, st1p, x));
        lemma_closing_line_not_empty(p.dialect, x);
        if is_pruned(x, p.prunes) || (st1p.last.len() == 0 && x.len() == 0) {
            assert(out_lines(p, cur) == op);
        } else if !st1p.after_block && st1p.in_block && closes_block(p.dialect, x) {
            let e = Seq::<char>::empty();
            let o = op + seq![p.inject, e, x];
            assert(out_lines(p, cur) == o);
            assert(o.drop_last() =~= op + seq![p.inject, e]);
            assert(o.drop_last().drop_last() =~= op.push(p.inject));
            assert(op.push(p.inject).drop_last() =~= op);
            let sa = edit_step(p, st2p, p.inject);
            let sb = edit_step(p, sa, e);
            let sc = edit_step(p, sb, x);
            assert(edit_run(p, op.push(p.inject)) == sa);
            assert(edit_run(p, op + seq![p.inject, e]) == sb);
            assert(edit_run(p, o) == sc);
            let a = st1p.out;
            let b = x + seq!['\n'];
            assert(st1.out =~= a + m + b);
            if closes_block(p.dialect, p.inject) {
                assert(sa.out == st2p.out + m + p.inject + seq!['\n']);
                assert(sb.out == sa.out + e + seq!['\n']);
                assert(sc.out == sb.out + x + seq!['\n']);
            } else {
                assert(sa.out == st2p.out + p.inject + seq!['\n']);
                assert(sb.out == sa.out + e + seq!['\n']);
                assert(sc.out == sb.out + m + x + seq!['\n']);
            }
            assert(sc.out =~= a + (m + m) + b);
            assert(split_around(st1.out, a, m, b) && split_around(sc.out, a, m + m, b));
        } else {
            let o = op.push(x);
            assert(out_lines(p, cur) == o);
            assert(o.drop_last() =~= op);
            let st2 = edit_step(p, st2p, x);
            assert(edit_run(p, o) == st2);
            if st1p.after_block {
                let (a, b) = choose|a: Seq<char>, b: Seq<char>|
                    #[trigger] split_around(st1p.out, a, m, b) && split_around(
                        st2p.out,
                        a,
                        m + m,
                        b,
                    );
                let b2 = b + x + seq!['\n'];
                assert(st1.out =~= a + m + b2);
                assert(st2.out =~= a + (m + m) + b2);
                assert(split_around(st1.out, a, m, b2) && split_around(st2.out, a, m + m, b2));
            }
        }
    }
}

proof fn lemma_join_concat(a: Seq<Seq<char>>, b: Seq<Seq<char>>)
    ensures
        join(a + b) == join(a) + join(b),
    decreases b.len(),
{
    if b.len() == 0 {
        assert(a + b =~= a);
        assert(join(a) + join(b) =~= join(a));
    } else {
        lemma_join_concat(a, b.drop_last());
        assert((a + b).drop_last() =~= a + b.drop_last());
        assert(join(a + b) =~= join(a) + join(b));
    }
}

/// The lines an append writes for the first `n` lines of a markdown document that drops
/// none of them, whose status heading is line `h` and whose block is closed by line `c`.
proof fn lemma_append_lines(p: EditParams, ls: Seq<Seq<char>>, h: int, c: int, n: int)
    requires
        appending(p),
        p.dialect == Dialect::Markdown,
        0 <= h < c < ls.len(),
        0 <= n <= ls.len(),
        forall|i: int| 0 <= i < h ==> !is_md_heading_of(#[trigger] ls[i], p.heading),
        is_md_heading_of(ls[h], p.heading),
        forall|i: int| h < i < c ==> !is_md_section(#[trigger] ls[i]),
        is_md_section(ls[c]),
        forall|i: int| 0 <= i < ls.len() ==> !is_pruned(#[trigger] ls[i], p.prunes),
        ls[0].len() > 0,
        forall|i: int| 0 < i < ls.len() ==> ls[i - 1].len() > 0 || #[trigger] ls[i].len() > 0,
    ensures
        ({
            let st = edit_run(p, ls.subrange(0, n));
            &&& st.in_block == (h < n)
            &&& st.after_block == (c < n)
            &&& st.last == if n == 0 {
                Seq::<char>::empty()
            } else {
                ls[n - 1]
            }
            &&& out_lines(p, ls.subrange(0, n)) == if n <= c {
                ls.subrange(0, n)
            } else {
                ls.subrange(0, c) + seq![p.inject, Seq::<char>::empty()] + ls.subrange(c, n)
            }
        }),
    decreases n,
{
    if n == 0 {
        assert(ls.subrange(0, 0) =~= Seq::<Seq<char>>::empty());
    } else {
        lemma_append_lines(p, ls, h, c, n - 1);
        let pre = ls.subrange(0, n - 1);
        let cur = ls.subrange(0, n);
        assert(cur.drop_last() =~= pre);
        let x = ls[n - 1];
        assert(cur.last() == x);
        assert(!is_pruned(x, p.prunes));
        if n - 1 > 0 {
            assert(ls[n - 2].len() > 0 || ls[n - 1].len() > 0);
        }
        if n - 1 < h {
            assert(!is_md_heading_of(x, p.heading));
        }
        if h < n - 1 && n - 1 < c {
            assert(!is_md_section(x));
        }
        let e = Seq::<char>::empty();
        if n <= c {
            assert(pre.push(x) =~= cur);
        } else if n - 1 == c {
            assert(ls.subrange(0, c) + seq![p.inject, e] + ls.subrange(c, n) =~= pre + seq![
                p.inject,
                e,
                x,
            ]);
        } else {
            assert((ls.subrange(0, c) + seq![p.inject, e] + ls.subrange(c, n - 1)).push(x)
                =~= ls.subrange(0, c) + seq![p.inject, e] + ls.subrange(c, n));
        }
    }
}

/// Appending to a markdown document whose lines the editor keeps as they are (none pruned,
/// none empty at the start, no two empty lines in a row): the result is the document's
/// lines up to the first section heading after the status heading, then the injected line
/// and an empty line, then the rest.
pub proof fn lemma_append_result(
    name: Seq<char>,
    content: Seq<char>,
    heading: Seq<char>,
    inject: Seq<char>,
    prunes: Seq<Seq<char>>,
    h: int,
    c: int,
)
    requires
        dialect_of(name) == Dialect::Markdown,
        0 <= h < c < lines_of(content).len(),
        forall|i: int| 0 <= i < h ==> !is_md_heading_of(#[trigger] lines_of(content)[i], heading),
        is_md_heading_of(lines_of(content)[h], heading),
        forall|i: int| h < i < c ==> !is_md_section(#[trigger] lines_of(content)[i]),
        is_md_section(lines_of(content)[c]),
        forall|i: int| 0 <= i < lines_of(content).len() ==> !is_pruned(#[trigger] lines_of(content)[i], prunes),
        lines_of(content)[0].len() > 0,
        forall|i: int|
            0 < i < lines_of(content).len() ==> lines_of(content)[i - 1].len() > 0
                || #[trigger] lines_of(content)[i].len() > 0,
    ensures
        rewritten(name, content, heading, inject, false, false, prunes) == join(
            lines_of(content).subrange(0, c),
        ) + inject + seq!['\n', '\n'] + join(
            lines_of(content).subrange(c, lines_of(content).len() as int),
        ),
{
    let p = EditParams {
        dialect: dialect_of(name),
        heading,
        inject,
        start_of_block: false,
        replace_block: false,
        prunes,
    };
    let ls = lines_of(content);
    let len = ls.len() as int;
    lemma_append_lines(p, ls, h, c, len);
    assert(ls.subrange(0, len) =~= ls);
    lemma_out_is_join(p, ls);
    let e = Seq::<char>::empty();
    let a = ls.subrange(0, c);
    let b = ls.subrange(c, len);
    lemma_join_concat(a + seq![inject, e], b);
    lemma_join_concat(a, seq![inject, e]);
    lemma_join_pair(inject);
}

proof fn lemma_join_pair(l: Seq<char>)
    ensures
        join(seq![l, Seq::<char>::empty()]) == l + seq!['\n', '\n'],
{
    let s0 = Seq::<Seq<char>>::empty();
    let s1 = s0.push(l);
    let s2 = s1.push(Seq::<char>::empty());
    assert(s2 =~= seq![l, Seq::<char>::empty()]);
    lemma_join_push(s0, l);
    lemma_join_push(s1, Seq::<char>::empty());
    assert(join(s2) =~= l + seq!['\n', '\n']);
}

/// Every line an append writes is the injected line, an empty line, or an input line that
/// is not pruned; once the block is closed, the injected line is among them.
proof fn lemma_out_lines_kept(p: EditParams, ls: Seq<Seq<char>>)
    ensures
        forall|i: int|
            0 <= i < out_lines(p, ls).len() ==> #[trigger] out_lines(p, ls)[i] == p.inject
                || out_lines(p, ls)[i].len() == 0 || !is_pruned(out_lines(p, ls)[i], p.prunes),
        edit_run(p, ls).after_block ==> exists|i: int|
            0 <= i < out_lines(p, ls).len() && #[trigger] out_lines(p, ls)[i] == p.inject,
    decreases ls.len(),
{
    if ls.len() > 0 {
        let pre = ls.drop_last();
        lemma_out_lines_kept(p, pre);
        let prev = out_lines(p, pre);
        let o = out_lines(p, ls);
        let x = ls.last();
        let e = Seq::<char>::empty();
        let st = edit_run(p, pre);
        if is_pruned(x, p.prunes) || (st.last.len() == 0 && x.len() == 0) {
        } else if !st.after_block && st.in_block && closes_block(p.dialect, x) {
            assert(o == prev + seq![p.inject, e, x]);
            assert(o[prev.len() as int] == p.inject);
            assert forall|i: int| 0 <= i < o.len() implies #[trigger] o[i] == p.inject || o[i].len()
                == 0 || !is_pruned(o[i], p.prunes) by {
                if i < prev.len() {
                    assert(o[i] == prev[i]);
                }
            }
        } else {
            assert(o == prev.push(x));
            assert forall|i: int| 0 <= i < o.len() implies #[trigger] o[i] == p.inject || o[i].len()
                == 0 || !is_pruned(o[i], p.prunes) by {
                if i < prev.len() {
                    assert(o[i] == prev[i]);
                }
            }
            if st.after_block {
                let j = choose|j: int| 0 <= j < prev.len() && #[trigger] prev[j] == p.inject;
                assert(o[j] == prev[j]);
            }
        }
    }
}

/// Appending drops every line that a prune pattern matches, but for the injected line
/// itself, and, when the document closes the status block, writes the injected line as a
/// line of its own.
pub proof fn lemma_append_prunes(
    name: Seq<char>,
    content: Seq<char>,
    heading: Seq<char>,
    inject: Seq<char>,
    prunes: Seq<Seq<char>>,
)
    requires
        plain_line(inject),
        forall|i: int|
            0 <= i < lines_of(content).len() ==> #[trigger] lines_of(content)[i].len() == 0
                || lines_of(content)[i].last() != '\r',
    ensures
        ({
            let p = EditParams {
                dialect: dialect_of(name),
                heading,
                inject,
                start_of_block: false,
                replace_block: false,
                prunes,
            };
            let out = lines_of(rewritten(name, content, heading, inject, false, false, prunes));
            &&& forall|i: int|
                0 <= i < out.len() ==> #[trigger] out[i] == inject || !is_pruned(out[i], prunes)
            &&& edit_run(p, lines_of(content)).after_block ==> exists|i: int|
                0 <= i < out.len() && #[trigger] out[i] == inject
        }),
{
    let p = EditParams {
        dialect: dialect_of(name),
        heading,
        inject,
        start_of_block: false,
        replace_block: false,
        prunes,
    };
    let ls = lines_of(content);
    lemma_lines_acc_plain(content);
    assert forall|i: int| 0 <= i < ls.len() implies plain_line(#[trigger] ls[i]) by {
        let acc = lines_acc(content);
        if i < acc.0.len() {
            assert(ls[i] == acc.0[i]);
        } else {
            assert(ls[i] == acc.1);
        }
        assert(ls[i].len() == 0 || ls[i].last() != '\r');
    }
    lemma_out_is_join(p, ls);
    lemma_out_lines_plain(p, ls);
    let o = out_lines(p, ls);
    lemma_lines_of_join(o);
    lemma_out_lines_kept(p, ls);
    if is_pruned(Seq::<char>::empty(), prunes) {
        lemma_all_pruned_writes_nothing(p, ls);
    }
    let out = lines_of(rewritten(name, content, heading, inject, false, false, prunes));
    assert(rewritten(name, content, heading, inject, false, false, prunes) == edit_run(p, ls).out);
    assert(out == o);
    assert forall|i: int| 0 <= i < out.len() implies #[trigger] out[i] == inject || !is_pruned(
        out[i],
        prunes,
    ) by {
        if out[i].len() == 0 {
            assert(out[i] =~= Seq::<char>::empty());
        }
    }
}

proof fn lemma_all_pruned_writes_nothing(p: EditParams, ls: Seq<Seq<char>>)
    requires
        is_pruned(Seq::<char>::empty(), p.prunes),
    ensures
        out_lines(p, ls).len() == 0,
    decreases ls.len(),
{
    if ls.len() > 0 {
        lemma_all_pruned_writes_nothing(p, ls.drop_last());
        lemma_every_line_pruned(p.prunes, ls.last());
    }
}

proof fn lemma_every_line_pruned(prunes: Seq<Seq<char>>, x: Seq<char>)
    requires
        is_pruned(Seq::<char>::empty(), prunes),
    ensures
        is_pruned(x, prunes),
{
    let e = Seq::<char>::empty();
    let j = choose|j: int| 0 <= j < prunes.len() && starts_after_space(e, #[trigger] prunes[j]);
    let k = choose|k: int| 0 <= k <= e.len() && all_space(e.subrange(0, k)) && occurs_at(e, prunes[j], k);
    assert(prunes[j].len() == 0);
    assert(x.subrange(0, 0) =~= prunes[j]);
    assert(all_space(x.subrange(0, 0)));
    assert(occurs_at(x, prunes[j], 0));
    assert(starts_after_space(x, prunes[j]));
}

/// With an empty prune pattern every line is dropped, and the editor never leaves its
/// initial state.
proof fn lemma_all_pruned(p: EditParams, ls: Seq<Seq<char>>)
    requires
        is_pruned(Seq::<char>::empty(), p.prunes),
    ensures
        edit_run(p, ls) == initial_state(),
    decreases ls.len(),
{
    if ls.len() > 0 {
        lemma_all_pruned(p, ls.drop_last());
        let e = Seq::<char>::empty();
        let j = choose|j: int| 0 <= j < p.prunes.len() && starts_after_space(e, #[trigger] p.prunes[j]);
        let k = choose|k: int|
            0 <= k <= e.len() && all_space(e.subrange(0, k)) && occurs_at(e, p.prunes[j], k);
        assert(p.prunes[j].len() == 0);
        let x = ls.last();
        assert(x.subrange(0, 0) =~= p.prunes[j]);
        assert(all_space(x.subrange(0, 0)));
        assert(occurs_at(x, p.prunes[j], 0));
        assert(starts_after_space(x, p.prunes[j]));
        assert(is_pruned(x, p.prunes));
    }
}

/// Appending the same line twice to a status block that the document opens and closes
/// leaves two copies of it, one after the other: the second append adds its copy whatever
/// the block already holds.
pub proof fn lemma_append_twice(
    name: Seq<char>,
    content: Seq<char>,
    heading: Seq<char>,
    inject: Seq<char>,
    prunes: Seq<Seq<char>>,
)
    requires
        edit_run(
            EditParams {
                dialect: dialect_of(name),
                heading,
                inject,
                start_of_block: false,
                replace_block: false,
                prunes,
            },
            lines_of(content),
        ).after_block,
        inject.len() > 0,
        plain_line(inject),
        !is_pruned(inject, prunes),
        forall|i: int|
            0 <= i < lines_of(content).len() ==> #[trigger] lines_of(content)[i].len() == 0
                || lines_of(content)[i].last() != '\r',
    ensures
        ({
            let once = rewritten(name, content, heading, inject, false, false, prunes);
            let twice = rewritten(name, once, heading, inject, false, false, prunes);
            let m = inject + seq!['\n', '\n'];
            exists|a: Seq<char>, b: Seq<char>|
                #[trigger] split_around(once, a, m, b) && split_around(twice, a, m + m, b)
        }),
{
    let p = EditParams {
        dialect: dialect_of(name),
        heading,
        inject,
        start_of_block: false,
        replace_block: false,
        prunes,
    };
    let ls = lines_of(content);
    if is_pruned(Seq::<char>::empty(), prunes) {
        lemma_all_pruned(p, ls);
    }
    lemma_lines_acc_plain(content);
    assert forall|i: int| 0 <= i < ls.len() implies plain_line(#[trigger] ls[i]) by {
        let acc = lines_acc(content);
        if i < acc.0.len() {
            assert(ls[i] == acc.0[i]);
        } else {
            assert(ls[i] == acc.1);
        }
        assert(ls[i].len() == 0 || ls[i].last() != '\r');
    }
    lemma_second_pass(p, ls, ls.len() as int);
    assert(ls.subrange(0, ls.len() as int) =~= ls);
    lemma_out_is_join(p, ls);
    lemma_out_lines_plain(p, ls);
    let o = out_lines(p, ls);
    lemma_lines_of_join(o);
    let st1 = edit_run(p, ls);
    let st2 = edit_run(p, o);
    let once = rewritten(name, content, heading, inject, false, false, prunes);
    assert(once == st1.out);
    assert(once == join(o));
    assert(lines_of(once) == o);
    let twice = rewritten(name, once, heading, inject, false, false, prunes);
    assert(twice == st2.out);
    let m = inject + seq!['\n', '\n'];
    assert(tail_insert(p) =~= m);
    let (a, b) = choose|a: Seq<char>, b: Seq<char>|
        #[trigger] split_around(st1.out, a, tail_insert(p), b) && split_around(
            st2.out,
            a,
            tail_insert(p) + tail_insert(p),
            b,
        );
    assert(split_around(once, a, m, b) && split_around(twice, a, m + m, b));
}

} // verus!
