//! Statement Splitter: turns a multi-statement schema script into the ordered
//! sequence of its non-empty, whitespace-trimmed statements.
//!
//! Statements are separated by the terminator character `;`.  Blank segments
//! (trailing terminators, blank lines between statements) are dropped
//! silently.  A statement must not itself contain the terminator as data.

use vstd::prelude::*;

verus! {

/// The characters the splitter treats as blank space around a statement.
pub open spec fn is_space_char(c: char) -> bool {
    c == ' ' || c == '\t' || c == '\n' || c == '\r'
}

/// The statement terminator of the schema script language.
pub open spec fn is_terminator(c: char) -> bool {
    c == ';'
}

/// A piece of text that contains no statement terminator.
pub open spec fn terminator_free(t: Seq<char>) -> bool {
    forall|k: int| 0 <= k < t.len() ==> !is_terminator(t[k])
}

/// Text with its leading space characters removed.
pub open spec fn trim_front(s: Seq<char>) -> Seq<char>
    decreases s.len(),
{
    if s.len() > 0 && is_space_char(s[0]) {
        trim_front(s.skip(1))
    } else {
        s
    }
}

/// Text with its trailing space characters removed.
pub open spec fn trim_back(s: Seq<char>) -> Seq<char>
    decreases s.len(),
{
    if s.len() > 0 && is_space_char(s.last()) {
        trim_back(s.drop_last())
    } else {
        s
    }
}

/// Text with both leading and trailing space characters removed.
pub open spec fn trimmed(s: Seq<char>) -> Seq<char> {
    trim_back(trim_front(s))
}

/// The raw segments of a script: the pieces between terminators, in order,
/// blanks included.  A script always has at least one segment.
pub open spec fn segments(s: Seq<char>) -> Seq<Seq<char>>
    decreases s.len(),
{
    if s.len() == 0 {
        seq![Seq::<char>::empty()]
    } else if is_terminator(s.last()) {
        segments(s.drop_last()).push(Seq::<char>::empty())
    } else {
        let p = segments(s.drop_last());
        p.update(p.len() - 1, p.last().push(s.last()))
    }
}

pub proof fn lemma_segments_len(s: Seq<char>)
    ensures
        segments(s).len() >= 1,
    decreases s.len(),
{
    if s.len() > 0 {
        lemma_segments_len(s.drop_last());
    }
}

/// What the splitter returns: every segment trimmed, blanks dropped, order kept.
pub open spec fn split_script_spec(s: Seq<char>) -> Seq<Seq<char>> {
    segments(s).map_values(|seg: Seq<char>| trimmed(seg)).filter(|t: Seq<char>| t.len() > 0)
}

proof fn lemma_push_facts<A>(s: Seq<A>, x: A)
    ensures
        s.push(x).len() == s.len() + 1,
        s.push(x).drop_last() == s,
        s.push(x).last() == x,
{
    assert(s.push(x).drop_last() =~= s);
}

proof fn lemma_filter_singleton(t: Seq<char>)
    ensures
        t.len() > 0 ==> seq![t].filter(|x: Seq<char>| x.len() > 0) == seq![t],
        t.len() == 0 ==> seq![t].filter(|x: Seq<char>| x.len() > 0) == Seq::<Seq<char>>::empty(),
{
    reveal_with_fuel(Seq::filter, 2);
    let single = seq![t];
    assert(single.drop_last() =~= Seq::<Seq<char>>::empty());
    assert(single.last() == t);
    assert(Seq::<Seq<char>>::empty().filter(|x: Seq<char>| x.len() > 0) == Seq::<
        Seq<char>,
    >::empty());
}

fn is_space(c: char) -> (r: bool)
    ensures
        r == is_space_char(c),
{
    c == ' ' || c == '\t' || c == '\n' || c == '\r'
}

proof fn lemma_trim_front_is_skip(s: Seq<char>, a: int)
    requires
        0 <= a <= s.len(),
        forall|k: int| 0 <= k < a ==> is_space_char(s[k]),
        a < s.len() ==> !is_space_char(s[a]),
    ensures
        trim_front(s) == s.skip(a),
    decreases a,
{
    if a == 0 {
        assert(s.skip(0) =~= s);
    } else {
        assert(is_space_char(s[0]));
        lemma_trim_front_is_skip(s.skip(1), a - 1);
        assert(s.skip(1).skip(a - 1) =~= s.skip(a));
    }
}

proof fn lemma_trim_back_is_take(s: Seq<char>, b: int)
    requires
        0 <= b <= s.len(),
        forall|k: int| b <= k < s.len() ==> is_space_char(s[k]),
        b > 0 ==> !is_space_char(s[b - 1]),
    ensures
        trim_back(s) == s.take(b),
    decreases s.len() - b,
{
    if b == s.len() {
        if s.len() > 0 {
            assert(!is_space_char(s.last()));
        }
        assert(s.take(b) =~= s);
    } else {
        assert(is_space_char(s.last()));
        assert(s.drop_last() =~= s.take(s.len() - 1));
        lemma_trim_back_is_take(s.take(s.len() - 1), b);
        assert(s.take(s.len() - 1).take(b) =~= s.take(b));
    }
}

/// Returns the input with leading and trailing space characters removed.
pub fn trim(s: &str) -> (r: String)
    ensures
        r@ == trimmed(s@),
{
    let n = s.unicode_len();
    let mut a: usize = 0;
    while a < n && is_space(s.get_char(a))
        invariant
            a <= n,
            n == s@.len(),
            forall|k: int| 0 <= k < a ==> is_space_char(s@[k]),
        decreases n - a,
    {
        a = a + 1;
    }
    if a == n {
        proof {
            lemma_trim_front_is_skip(s@, n as int);
            assert(s@.skip(n as int) =~= Seq::<char>::empty());
        }
        return String::new();
    }
    proof {
        lemma_trim_front_is_skip(s@, a as int);
    }
    let mut b: usize = n;
    while b > a && is_space(s.get_char(b - 1))
        invariant
            a <= b <= n,
            n == s@.len(),
            a < n,
            !is_space_char(s@[a as int]),
            forall|k: int| b <= k < n ==> is_space_char(s@[k]),
        decreases b,
    {
        b = b - 1;
    }
    assert(b > a);
    proof {
        let tail = s@.skip(a as int);
        assert(forall|k: int| b - a <= k < tail.len() ==> is_space_char(#[trigger] tail[k]));
        assert(!is_space_char(tail[b - a - 1]));
        lemma_trim_back_is_take(tail, b - a);
    }
    let mut out = String::new();
    let mut i: usize = a;
    while i < b
        invariant
            a <= i <= b <= n,
            n == s@.len(),
            out@ == s@.skip(a as int).take(i - a),
        decreases b - i,
    {
        out.push(s.get_char(i));
        proof {
            assert(s@.skip(a as int).take(i + 1 - a) =~= s@.skip(a as int).take(i - a).push(
                s@[i as int],
            ));
        }
        i = i + 1;
    }
    out
}

/// Statement Splitter: returns the ordered sequence of non-empty, trimmed
/// statements of the given schema script.
pub fn split_statements(script: &str) -> (r: Vec<String>)
    ensures
        r@.map_values(|st: String| st@) == split_script_spec(script@),
{
    broadcast use vstd::seq_lib::group_seq_lib_default;

    let n = script.unicode_len();
    let mut out: Vec<String> = Vec::new();
    let mut cur = String::new();
    let mut i: usize = 0;
    proof {
        assert(script@.take(0) =~= Seq::<char>::empty());
        assert(segments(Seq::<char>::empty()).drop_last() =~= Seq::<Seq<char>>::empty());
        assert(Seq::<Seq<char>>::empty().map_values(|seg: Seq<char>| trimmed(seg)) =~= Seq::<
            Seq<char>,
        >::empty());
    }
    while i < n
        invariant
            i <= n,
            n == script@.len(),
            segments(script@.take(i as int)).len() >= 1,
            cur@ == segments(script@.take(i as int)).last(),
            out@.map_values(|st: String| st@) == segments(script@.take(i as int)).drop_last()
                .map_values(|seg: Seq<char>| trimmed(seg)).filter(|t: Seq<char>| t.len() > 0),
        decreases n - i,
    {
        let ghost pre = script@.take(i as int);
        let ghost segs = segments(pre);
        let c = script.get_char(i);
        proof {
            assert(script@.take(i + 1) =~= pre.push(c));
            lemma_segments_len(pre);
        }
        if c == ';' {
            proof {
                lemma_push_facts(pre, c);
                assert(segments(pre.push(c)) == segs.push(Seq::<char>::empty()));
                assert(segs.push(Seq::<char>::empty()).drop_last() =~= segs);
                assert(segs =~= segs.drop_last().push(segs.last()));
                Seq::<Seq<char>>::filter_distributes_over_add(
                    segs.drop_last().map_values(|seg: Seq<char>| trimmed(seg)),
                    seq![trimmed(segs.last())],
                    |t: Seq<char>| t.len() > 0,
                );
                assert(segs.map_values(|seg: Seq<char>| trimmed(seg)) =~= segs.drop_last()
                    .map_values(|seg: Seq<char>| trimmed(seg)) + seq![trimmed(segs.last())]);
                lemma_filter_singleton(trimmed(segs.last()));
            }
            let t = trim(cur.as_str());
            if t.unicode_len() > 0 {
                out.push(t);
            }
            proof {
                assert(out@.map_values(|st: String| st@) =~= segs.map_values(
                    |seg: Seq<char>| trimmed(seg),
                ).filter(|t: Seq<char>| t.len() > 0));
            }
            cur = String::new();
        } else {
            cur.push(c);
            proof {
                lemma_push_facts(pre, c);
                let updated = segs.update(segs.len() - 1, segs.last().push(c));
                assert(segments(pre.push(c)) == updated);
                assert(updated.drop_last() =~= segs.drop_last());
                assert(updated.last() == segs.last().push(c));
            }
        }
        i = i + 1;
        proof {
            assert(script@.take(i as int) == pre.push(c));
        }
    }
    proof {
        assert(script@.take(n as int) =~= script@);
        lemma_segments_len(script@);
        let segs = segments(script@);
        assert(segs =~= segs.drop_last().push(segs.last()));
        Seq::<Seq<char>>::filter_distributes_over_add(
            segs.drop_last().map_values(|seg: Seq<char>| trimmed(seg)),
            seq![trimmed(segs.last())],
            |t: Seq<char>| t.len() > 0,
        );
        assert(segs.map_values(|seg: Seq<char>| trimmed(seg)) =~= segs.drop_last().map_values(
            |seg: Seq<char>| trimmed(seg),
        ) + seq![trimmed(segs.last())]);
    }
    let ghost segs = segments(script@);
    proof {
        lemma_filter_singleton(trimmed(segs.last()));
    }
    let t = trim(cur.as_str());
    if t.unicode_len() > 0 {
        out.push(t);
    }
    proof {
        assert(out@.map_values(|st: String| st@) =~= split_script_spec(script@));
    }
    out
}

/// A script assembled from parts, one terminator between consecutive parts.
pub open spec fn join_script(parts: Seq<Seq<char>>) -> Seq<char>
    decreases parts.len(),
{
    if parts.len() == 0 {
        Seq::<char>::empty()
    } else if parts.len() == 1 {
        parts[0]
    } else {
        join_script(parts.drop_last()) + seq![';'] + parts.last()
    }
}

proof fn lemma_segments_append_free(s: Seq<char>, t: Seq<char>)
    requires
        terminator_free(t),
    ensures
        segments(s + t) == segments(s).update(
            segments(s).len() - 1,
            segments(s).last() + t,
        ),
    decreases t.len(),
{
    lemma_segments_len(s);
    let segs = segments(s);
    if t.len() == 0 {
        assert(s + t =~= s);
        assert(segs.update(segs.len() - 1, segs.last() + t) =~= segs);
    } else {
        lemma_segments_append_free(s, t.drop_last());
        let q = segments(s + t.drop_last());
        assert(s + t =~= (s + t.drop_last()).push(t.last()));
        assert(!is_terminator(t.last()));
        lemma_push_facts(s + t.drop_last(), t.last());
        lemma_segments_len(s + t.drop_last());
        assert(segments(s + t) == q.update(q.len() - 1, q.last().push(t.last())));
        assert(q == segs.update(segs.len() - 1, segs.last() + t.drop_last()));
        assert(q.last() == segs.last() + t.drop_last());
        assert((segs.last() + t.drop_last()).push(t.last()) =~= segs.last() + t);
        assert(q.update(q.len() - 1, segs.last() + t) =~= segs.update(
            segs.len() - 1,
            segs.last() + t,
        ));
    }
}

proof fn lemma_segments_of_join(parts: Seq<Seq<char>>)
    requires
        parts.len() >= 1,
        forall|i: int| 0 <= i < parts.len() ==> terminator_free(#[trigger] parts[i]),
    ensures
        segments(join_script(parts)) == parts,
    decreases parts.len(),
{
    if parts.len() == 1 {
        lemma_segments_append_free(Seq::<char>::empty(), parts[0]);
        assert(Seq::<char>::empty() + parts[0] =~= parts[0]);
        assert(seq![Seq::<char>::empty()].update(0, Seq::<char>::empty() + parts[0])
            =~= seq![parts[0]]);
        assert(seq![parts[0]] =~= parts);
    } else {
        let dl = parts.drop_last();
        assert(forall|i: int| 0 <= i < dl.len() ==> terminator_free(#[trigger] dl[i]));
        lemma_segments_of_join(dl);
        let j = join_script(dl);
        assert(join_script(parts) == j + seq![';'] + parts.last());
        assert(j + seq![';'] =~= (j + seq![';']));
        assert((j + seq![';']).last() == ';');
        assert((j + seq![';']).drop_last() =~= j);
        assert(segments(j + seq![';']) == segments(j).push(Seq::<char>::empty()));
        lemma_segments_append_free(j + seq![';'], parts.last());
        let q = segments(j + seq![';']);
        assert(q == dl.push(Seq::<char>::empty()));
        assert(segments(j + seq![';'] + parts.last()) == q.update(
            q.len() - 1,
            q.last() + parts.last(),
        ));
        assert(Seq::<char>::empty() + parts.last() =~= parts.last());
        assert(q.update(q.len() - 1, q.last() + parts.last()) =~= parts);
        assert(j + seq![';'] + parts.last() =~= join_script(parts));
    }
}

/// Splitter correctness: splitting a script assembled by joining
/// terminator-free parts yields exactly the trimmed, non-blank parts,
/// in their original order.
pub proof fn lemma_split_of_joined_script(parts: Seq<Seq<char>>)
    requires
        parts.len() >= 1,
        forall|i: int| 0 <= i < parts.len() ==> terminator_free(#[trigger] parts[i]),
    ensures
        split_script_spec(join_script(parts)) == parts.map_values(
            |p: Seq<char>| trimmed(p),
        ).filter(|t: Seq<char>| t.len() > 0),
{
    lemma_segments_of_join(parts);
}

} // verus!
