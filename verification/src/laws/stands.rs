//! Where a text stands in another.
use vstd::prelude::*;

use crate::pattern::has_text;
use crate::search::{contains_text, matches_at};
use crate::text::join_text;

verus! {

broadcast use crate::text::group_text;

/// A text stands between any two others.
pub proof fn stands(a: Seq<char>, t: Seq<char>, z: Seq<char>)
    ensures
        contains_text(a + t + z, t),
{
    let s = a + t + z;
    assert(s.subrange(a.len() as int, (a.len() + t.len()) as int) =~= t);
    assert(matches_at(s, t, a.len() as int));
}

/// What stands in a text stands in whatever is written around it.
pub proof fn stands_in(a: Seq<char>, s: Seq<char>, z: Seq<char>, t: Seq<char>)
    requires
        contains_text(s, t),
    ensures
        contains_text(a + s + z, t),
{
    let i = choose|i: int| matches_at(s, t, i);
    let r = a + s + z;
    assert(r.subrange(a.len() + i, a.len() + i + t.len()) =~= s.subrange(i, i + t.len()));
    assert(matches_at(r, t, a.len() + i));
}

/// What stands in the front stands in the whole.
pub proof fn stands_left(s: Seq<char>, z: Seq<char>, t: Seq<char>)
    requires
        contains_text(s, t),
    ensures
        contains_text(s + z, t),
{
    stands_in(Seq::empty(), s, z, t);
    assert(Seq::<char>::empty() + s + z =~= s + z);
}

/// What stands in the back stands in the whole.
pub proof fn stands_right(a: Seq<char>, s: Seq<char>, t: Seq<char>)
    requires
        contains_text(s, t),
    ensures
        contains_text(a + s, t),
{
    stands_in(a, s, Seq::empty(), t);
    assert(a + s + Seq::<char>::empty() =~= a + s);
}

/// What stands in something that stands in a text stands in the text.
pub proof fn stands_through(s: Seq<char>, m: Seq<char>, t: Seq<char>)
    requires
        contains_text(s, m),
        contains_text(m, t),
    ensures
        contains_text(s, t),
{
    let i = choose|i: int| matches_at(s, m, i);
    let k = choose|k: int| matches_at(m, t, k);
    assert(s.subrange(i + k, i + k + t.len()) =~= s.subrange(i, i + m.len()).subrange(
        k,
        k + t.len(),
    ));
    assert(matches_at(s, t, i + k));
}

/// Each part stands in the joined text.
pub proof fn part_stands(parts: Seq<Seq<char>>, sep: Seq<char>, i: int)
    requires
        0 <= i < parts.len(),
    ensures
        contains_text(join_text(parts, sep), parts[i]),
    decreases parts.len(),
{
    if parts.len() == 1 {
        stands(Seq::empty(), parts[0], Seq::empty());
        assert(Seq::<char>::empty() + parts[0] + Seq::<char>::empty() =~= parts[0]);
    } else {
        let front = parts.drop_last();
        let j = join_text(front, sep);
        if i == parts.len() - 1 {
            stands(j + sep, parts.last(), Seq::empty());
            assert(j + sep + parts.last() + Seq::<char>::empty() =~= j + sep + parts.last());
        } else {
            part_stands(front, sep, i);
            assert(front[i] == parts[i]);
            stands_in(Seq::empty(), j, sep + parts.last(), parts[i]);
            assert(Seq::<char>::empty() + j + (sep + parts.last()) =~= j + sep + parts.last());
        }
    }
}

/// Neighbours stand next to each other in the joined text, parted by the
/// separator.
pub proof fn neighbours_stand(parts: Seq<Seq<char>>, sep: Seq<char>, i: int)
    requires
        0 <= i < parts.len() - 1,
    ensures
        contains_text(join_text(parts, sep), parts[i] + sep + parts[i + 1]),
    decreases parts.len(),
{
    let front = parts.drop_last();
    let j = join_text(front, sep);
    let t = parts[i] + sep + parts[i + 1];
    if i == parts.len() - 2 {
        if front.len() == 1 {
            stands(Seq::empty(), t, Seq::empty());
            assert(Seq::<char>::empty() + t + Seq::<char>::empty() =~= j + sep + parts.last());
        } else {
            let k = join_text(front.drop_last(), sep);
            stands(k + sep, t, Seq::empty());
            assert(front.last() == parts[i]);
            assert((k + sep) + t + Seq::<char>::empty() =~= j + sep + parts.last());
        }
    } else {
        neighbours_stand(front, sep, i);
        assert(front[i] == parts[i] && front[i + 1] == parts[i + 1]);
        stands_in(Seq::empty(), j, sep + parts.last(), t);
        assert(Seq::<char>::empty() + j + (sep + parts.last()) =~= j + sep + parts.last());
    }
}

/// A list that grows keeps what it has.
pub proof fn still_there(parts: Seq<Seq<char>>, more: Seq<char>, t: Seq<char>)
    ensures
        has_text(parts, t) ==> has_text(parts.push(more), t),
        has_text(parts.push(more), more),
{
    let all = parts.push(more);
    assert(all[parts.len() as int] == more);
    if has_text(parts, t) {
        let i = choose|i: int| 0 <= i < parts.len() && #[trigger] parts[i] == t;
        assert(all[i] == t);
    }
}

} // verus!
