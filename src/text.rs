//! Text helpers: Unicode whitespace, splitting on whitespace runs, joining
//! with single spaces, and the ordering of identifiers.

use vstd::prelude::*;

verus! {

/// The Unicode `White_Space` property, as `char::is_whitespace` reports it.
pub open spec fn is_space(c: char) -> bool {
    let u = c as u32;
    (0x09 <= u && u <= 0x0d) || u == 0x20 || u == 0x85 || u == 0xa0 || u == 0x1680 || (0x2000
        <= u && u <= 0x200a) || u == 0x2028 || u == 0x2029 || u == 0x202f || u == 0x205f || u
        == 0x3000
}

/// Whether `c` is Unicode whitespace.
pub fn is_space_char(c: char) -> (r: bool)
    ensures
        r == is_space(c),
{
    let u = c as u32;
    (0x09 <= u && u <= 0x0d) || u == 0x20 || u == 0x85 || u == 0xa0 || u == 0x1680 || (0x2000
        <= u && u <= 0x200a) || u == 0x2028 || u == 0x2029 || u == 0x202f || u == 0x205f || u
        == 0x3000
}

/// The maximal runs of non-whitespace characters of `s`, in order.
pub open spec fn split_ws(s: Seq<char>) -> Seq<Seq<char>>
    decreases s.len(),
{
    if s.len() == 0 {
        Seq::empty()
    } else {
        let prev = split_ws(s.drop_last());
        let c = s.last();
        if is_space(c) {
            prev
        } else if s.len() >= 2 && !is_space(s[s.len() - 2]) {
            prev.update(prev.len() - 1, prev.last().push(c))
        } else {
            prev.push(seq![c])
        }
    }
}

/// A word: non-empty and free of whitespace.
pub open spec fn is_word(w: Seq<char>) -> bool {
    w.len() > 0 && forall|i: int| 0 <= i < w.len() ==> !is_space(#[trigger] w[i])
}

/// The words joined with one space between neighbours.
pub open spec fn join_spaced(ws: Seq<Seq<char>>) -> Seq<char>
    decreases ws.len(),
{
    if ws.len() == 0 {
        Seq::empty()
    } else if ws.len() == 1 {
        ws[0]
    } else {
        join_spaced(ws.drop_last()) + seq![' '] + ws.last()
    }
}

/// Strict lexicographic order on character sequences, by code point; this is
/// the order of `str`'s `Ord`, which compares UTF-8 bytes.
pub open spec fn id_lt(a: Seq<char>, b: Seq<char>) -> bool
    decreases a.len(),
{
    if a.len() == 0 {
        b.len() > 0
    } else if b.len() == 0 {
        false
    } else if a[0] != b[0] {
        (a[0] as u32) < (b[0] as u32)
    } else {
        id_lt(a.drop_first(), b.drop_first())
    }
}

pub proof fn lemma_id_lt_irreflexive(a: Seq<char>)
    ensures
        !id_lt(a, a),
    decreases a.len(),
{
    if a.len() > 0 {
        lemma_id_lt_irreflexive(a.drop_first());
    }
}

pub proof fn lemma_id_lt_transitive(a: Seq<char>, b: Seq<char>, c: Seq<char>)
    requires
        id_lt(a, b),
        id_lt(b, c),
    ensures
        id_lt(a, c),
    decreases a.len(),
{
    if a.len() > 0 && b.len() > 0 && c.len() > 0 && a[0] == b[0] && b[0] == c[0] {
        lemma_id_lt_transitive(a.drop_first(), b.drop_first(), c.drop_first());
    }
}

proof fn lemma_id_lt_skip(a: Seq<char>, b: Seq<char>, i: int)
    requires
        0 <= i <= a.len(),
        i <= b.len(),
        a.subrange(0, i) == b.subrange(0, i),
    ensures
        id_lt(a, b) == id_lt(a.subrange(i, a.len() as int), b.subrange(i, b.len() as int)),
    decreases i,
{
    if i > 0 {
        assert(a[0] == a.subrange(0, i)[0]);
        assert(b[0] == b.subrange(0, i)[0]);
        assert(a.drop_first().subrange(0, i - 1) =~= a.subrange(0, i).drop_first());
        assert(b.drop_first().subrange(0, i - 1) =~= b.subrange(0, i).drop_first());
        lemma_id_lt_skip(a.drop_first(), b.drop_first(), i - 1);
        assert(a.drop_first().subrange(i - 1, a.len() - 1) =~= a.subrange(i, a.len() as int));
        assert(b.drop_first().subrange(i - 1, b.len() - 1) =~= b.subrange(i, b.len() as int));
    } else {
        assert(a.subrange(0, a.len() as int) =~= a);
        assert(b.subrange(0, b.len() as int) =~= b);
    }
}

/// The outcome of comparing two identifiers.
#[derive(PartialEq, Eq, Structural, Clone, Copy, Debug)]
pub enum Order {
    Less,
    Equal,
    Greater,
}

/// Compares two strings character by character.
pub fn compare_ids(a: &str, b: &str) -> (r: Order)
    ensures
        r == Order::Less <==> id_lt(a@, b@),
        r == Order::Equal <==> a@ == b@,
        r == Order::Greater <==> id_lt(b@, a@),
{
    let la = a.unicode_len();
    let lb = b.unicode_len();
    let mut i: usize = 0;
    while i < la && i < lb
        invariant
            la == a@.len(),
            lb == b@.len(),
            i <= la,
            i <= lb,
            a@.subrange(0, i as int) == b@.subrange(0, i as int),
        decreases la - i,
    {
        let ca = a.get_char(i);
        let cb = b.get_char(i);
        if ca != cb {
            proof {
                let sa = a@.subrange(i as int, la as int);
                let sb = b@.subrange(i as int, lb as int);
                lemma_id_lt_skip(a@, b@, i as int);
                lemma_id_lt_skip(b@, a@, i as int);
                assert(sa[0] == ca);
                assert(sb[0] == cb);
                assert(a@ != b@) by {
                    assert(a@[i as int] != b@[i as int]);
                }
            }
            if (ca as u32) < (cb as u32) {
                return Order::Less;
            } else {
                return Order::Greater;
            }
        }
        proof {
            assert(a@.subrange(0, i + 1) =~= a@.subrange(0, i as int).push(ca));
            assert(b@.subrange(0, i + 1) =~= b@.subrange(0, i as int).push(cb));
        }
        i = i + 1;
    }
    proof {
        lemma_id_lt_skip(a@, b@, i as int);
        lemma_id_lt_skip(b@, a@, i as int);
        let sa = a@.subrange(i as int, la as int);
        let sb = b@.subrange(i as int, lb as int);
        if la == lb {
            assert(a@ =~= a@.subrange(0, i as int));
            assert(b@ =~= b@.subrange(0, i as int));
        } else {
            assert(a@.len() != b@.len());
        }
        assert(sa.len() == 0 || sb.len() == 0);
    }
    if la < lb {
        Order::Less
    } else if la == lb {
        Order::Equal
    } else {
        Order::Greater
    }
}


/// The views of a sequence of strings.
pub open spec fn views(ws: Seq<String>) -> Seq<Seq<char>> {
    ws.map_values(|w: String| w@)
}

pub proof fn lemma_views_push(ws: Seq<String>, w: String)
    ensures
        views(ws.push(w)) == views(ws).push(w@),
{
    assert(views(ws.push(w)) =~= views(ws).push(w@));
}

/// Splits `s` on runs of whitespace, dropping empty pieces.
pub fn split_words(s: &str) -> (r: Vec<String>)
    ensures
        views(r@) == split_ws(s@),
{
    let n = s.unicode_len();
    let mut words: Vec<String> = Vec::new();
    let mut start: usize = 0;
    let mut in_word = false;
    let mut i: usize = 0;
    while i < n
        invariant
            n == s@.len(),
            i <= n,
            start <= i,
            in_word ==> i > 0 && !is_space(s@[i - 1]),
            !in_word ==> (i == 0 || is_space(s@[i - 1])),
            in_word ==> forall|j: int| start <= j < i ==> !is_space(#[trigger] s@[j]),
            in_word ==> start == 0 || is_space(s@[start - 1]),
            in_word ==> start < i,
            (if in_word {
                views(words@).push(s@.subrange(start as int, i as int))
            } else {
                views(words@)
            }) == split_ws(s@.subrange(0, i as int)),
        decreases n - i,
    {
        let c = s.get_char(i);
        let ghost pre = s@.subrange(0, i as int);
        let ghost cur = s@.subrange(0, i + 1);
        proof {
            assert(cur.drop_last() =~= pre);
            assert(cur.last() == c);
        }
        if is_space_char(c) {
            proof {
                assert(split_ws(cur) == split_ws(pre));
            }
            if in_word {
                let w = s.substring_char(start, i).to_owned();
                let ghost prev = words@;
                words.push(w);
                proof {
                    lemma_views_push(prev, w);
                }
                in_word = false;
            }
        } else {
            if !in_word {
                start = i;
                in_word = true;
                proof {
                    assert(s@.subrange(start as int, i + 1) =~= seq![c]);
                    assert(split_ws(cur) == split_ws(pre).push(seq![c]));
                }
            } else {
                proof {
                    let sub = s@.subrange(start as int, i as int);
                    assert(s@.subrange(start as int, i + 1) =~= sub.push(c));
                    assert(cur[cur.len() - 2] == s@[i - 1]);
                    let prev = split_ws(pre);
                    assert(split_ws(cur) == prev.update(prev.len() - 1, prev.last().push(c)));
                    assert(views(words@).push(sub.push(c)) =~= views(words@).push(sub).update(
                        prev.len() - 1,
                        sub.push(c),
                    ));
                }
            }
        }
        i = i + 1;
    }
    if in_word {
        let w = s.substring_char(start, n).to_owned();
        let ghost prev = words@;
        words.push(w);
        proof {
            lemma_views_push(prev, w);
        }
    }
    proof {
        assert(s@.subrange(0, n as int) =~= s@);
    }
    words
}


/// Joins the words with one space between neighbours.
pub fn join_words(ws: &Vec<String>) -> (r: String)
    ensures
        r@ == join_spaced(views(ws@)),
{
    let mut r = String::new();
    let mut i: usize = 0;
    while i < ws.len()
        invariant
            i <= ws@.len(),
            r@ == join_spaced(views(ws@).take(i as int)),
        decreases ws@.len() - i,
    {
        let ghost done = views(ws@).take(i as int);
        let ghost next = views(ws@).take(i + 1);
        proof {
            assert(next.drop_last() =~= done);
            reveal_strlit(" ");
        }
        if i > 0 {
            r.append(" ");
        }
        r.append(ws[i].as_str());
        proof {
            if i == 0 {
                assert(r@ =~= next[0]);
            } else {
                assert(r@ =~= join_spaced(done) + seq![' '] + next.last());
            }
        }
        i = i + 1;
    }
    proof {
        assert(views(ws@).take(i as int) =~= views(ws@));
    }
    r
}

proof fn lemma_split_append_word(x: Seq<char>, g: Seq<char>)
    requires
        is_word(g),
        x.len() == 0 || is_space(x.last()),
    ensures
        split_ws(x + g) == split_ws(x).push(g),
    decreases g.len(),
{
    let s = x + g;
    assert(s.drop_last() =~= x + g.drop_last());
    assert(s.last() == g.last());
    if g.len() == 1 {
        assert(x + g.drop_last() =~= x);
        assert(g =~= seq![g.last()]);
        if s.len() >= 2 {
            assert(s[s.len() - 2] == x.last());
        }
    } else {
        lemma_split_append_word(x, g.drop_last());
        assert(s[s.len() - 2] == g[g.len() - 2]);
        let prev = split_ws(x).push(g.drop_last());
        assert(g.drop_last().push(g.last()) =~= g);
        assert(prev.update(prev.len() - 1, prev.last().push(g.last())) =~= split_ws(x).push(g));
    }
}

/// Every piece that splitting produces is a word.
pub proof fn lemma_split_gives_words(s: Seq<char>)
    ensures
        forall|i: int| 0 <= i < split_ws(s).len() ==> is_word(#[trigger] split_ws(s)[i]),
    decreases s.len(),
{
    if s.len() > 0 {
        lemma_split_gives_words(s.drop_last());
        let prev = split_ws(s.drop_last());
        let c = s.last();
        if !is_space(c) && s.len() >= 2 && !is_space(s[s.len() - 2]) {
            assert(prev.len() > 0) by {
                lemma_split_nonempty_after_word(s.drop_last());
            }
            let w = prev.last().push(c);
            assert(is_word(prev[prev.len() - 1]));
            assert forall|j: int| 0 <= j < w.len() implies !is_space(#[trigger] w[j]) by {
                if j < w.len() - 1 {
                    assert(w[j] == prev[prev.len() - 1][j]);
                }
            }
        } else if !is_space(c) {
            assert(is_word(seq![c]));
        }
    }
}

proof fn lemma_split_nonempty_after_word(s: Seq<char>)
    requires
        s.len() > 0,
        !is_space(s.last()),
    ensures
        split_ws(s).len() > 0,
    decreases s.len(),
{
    if s.len() >= 2 && !is_space(s[s.len() - 2]) {
        assert(s.drop_last().last() == s[s.len() - 2]);
        lemma_split_nonempty_after_word(s.drop_last());
    }
}

/// `s` without its whitespace characters.
pub open spec fn strip_ws(s: Seq<char>) -> Seq<char>
    decreases s.len(),
{
    if s.len() == 0 {
        s
    } else if is_space(s.last()) {
        strip_ws(s.drop_last())
    } else {
        strip_ws(s.drop_last()).push(s.last())
    }
}

/// The words of a string, concatenated in order, are the string with its
/// whitespace removed: splitting keeps order and duplicates and loses only
/// whitespace.
pub proof fn lemma_split_keeps_non_space(s: Seq<char>)
    ensures
        split_ws(s).flatten() == strip_ws(s),
    decreases s.len(),
{
    if s.len() > 0 {
        lemma_split_keeps_non_space(s.drop_last());
        let prev = split_ws(s.drop_last());
        let c = s.last();
        if !is_space(c) {
            if s.len() >= 2 && !is_space(s[s.len() - 2]) {
                assert(s.drop_last().last() == s[s.len() - 2]);
                lemma_split_nonempty_after_word(s.drop_last());
                let init = prev.drop_last();
                let w = prev.last();
                assert(prev =~= init.push(w));
                assert(prev.update(prev.len() - 1, w.push(c)) =~= init.push(w.push(c)));
                init.lemma_flatten_push(w);
                init.lemma_flatten_push(w.push(c));
                assert(init.flatten() + w.push(c) =~= (init.flatten() + w).push(c));
            } else {
                prev.lemma_flatten_push(seq![c]);
                assert(prev.flatten() + seq![c] =~= prev.flatten().push(c));
            }
        }
    }
}

/// Splitting the spaced join of words gives the words back.
pub proof fn lemma_split_join(ws: Seq<Seq<char>>)
    requires
        forall|i: int| 0 <= i < ws.len() ==> is_word(#[trigger] ws[i]),
    ensures
        split_ws(join_spaced(ws)) == ws,
    decreases ws.len(),
{
    if ws.len() == 1 {
        lemma_split_append_word(Seq::empty(), ws[0]);
        assert(Seq::<char>::empty() + ws[0] =~= ws[0]);
        assert(split_ws(Seq::<char>::empty()).push(ws[0]) =~= ws);
    } else if ws.len() > 1 {
        let init = ws.drop_last();
        lemma_split_join(init);
        let x = join_spaced(init) + seq![' '];
        assert(x.drop_last() =~= join_spaced(init));
        assert(is_space(x.last()));
        assert(split_ws(x) == split_ws(join_spaced(init)));
        lemma_split_append_word(x, ws.last());
        assert(init.push(ws.last()) =~= ws);
    } else {
        assert(ws =~= Seq::<Seq<char>>::empty());
    }
}

/// Groups survive being shown as a spaced string and read back: the words
/// of a string, joined with single spaces and split again, are the same words.
pub proof fn lemma_groups_round_trip(s: Seq<char>)
    ensures
        split_ws(join_spaced(split_ws(s))) == split_ws(s),
{
    lemma_split_gives_words(s);
    lemma_split_join(split_ws(s));
}

} // verus!
