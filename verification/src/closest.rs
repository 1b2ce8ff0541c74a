//! A long list of expected names cut down to the names that are closest
//! to what was found.
//!
//! How close a name is comes as a key, the smaller the closer; a name
//! that is not close has none.

use vstd::prelude::*;
use vstd::string::StringExecFns;
use crate::error::{ErrorItem, ErrorItemView};
use crate::helpers::items_view;
use crate::text::{decimal, push_decimal};

verus! {

/// Whether the name at `i` has a key.
pub open spec fn is_close(keys: Seq<Option<u32>>, i: int) -> bool {
    0 <= i < keys.len() && keys[i] is Some
}

/// Whether the name at `i` comes before the name at `j`: its key is
/// smaller, or the keys are equal and it stands first.
pub open spec fn key_before(keys: Seq<Option<u32>>, i: int, j: int) -> bool {
    keys[i]->0 < keys[j]->0 || (keys[i]->0 == keys[j]->0 && i < j)
}

/// Whether `picks` are the places of the names that are kept: the names
/// with a key, at most three, in the order of their keys, and every name
/// with a key that is not kept comes behind the three that are.
pub open spec fn closest(keys: Seq<Option<u32>>, picks: Seq<int>) -> bool {
    &&& picks.len() <= 3
    &&& forall|a: int| 0 <= a < picks.len() ==> is_close(keys, #[trigger] picks[a])
    &&& forall|a: int, b: int|
        0 <= a < b < picks.len() ==> key_before(keys, #[trigger] picks[a], #[trigger] picks[b])
    &&& forall|j: int|
        #![trigger is_close(keys, j)]
        is_close(keys, j) && !picks.contains(j) ==> picks.len() == 3 && key_before(
            keys,
            picks[2],
            j,
        )
}

/// What an error says of the names that are left out.
pub open spec fn rest_text(n: nat) -> Seq<char> {
    "one of "@ + decimal(n) + " options"@
}

/// The items for the names at `picks`, and one that counts the names
/// that are left out, where any is.
pub open spec fn kept_items(expected: Seq<String>, picks: Seq<int>) -> Seq<ErrorItemView> {
    let names = Seq::new(picks.len(), |a: int| ErrorItemView::Expected(expected[picks[a]]@));
    if picks.len() < expected.len() {
        names.push(ErrorItemView::Expected(rest_text((expected.len() - picks.len()) as nat)))
    } else {
        names
    }
}

/// The places `v` as numbers.
pub open spec fn places(v: Seq<usize>) -> Seq<int> {
    v.map_values(|p: usize| p as int)
}

/// Whether the name at `i` comes before the name at `j`.
fn comes_before(keys: &Vec<Option<u32>>, i: usize, j: usize) -> (r: bool)
    requires
        is_close(keys@, i as int),
        is_close(keys@, j as int),
    ensures
        r == key_before(keys@, i as int, j as int),
{
    match (&keys[i], &keys[j]) {
        (Some(a), Some(b)) => *a < *b || (*a == *b && i < j),
        _ => false,
    }
}

/// Whether the name at `c` can be kept next: it has a key, and comes
/// behind the name that was kept last.
pub open spec fn can_follow(keys: Seq<Option<u32>>, last: Option<int>, c: int) -> bool {
    is_close(keys, c) && match last {
        Some(l) => key_before(keys, l, c),
        None => true,
    }
}

/// The first of the names that can be kept next, if there is one.
fn next_pick(keys: &Vec<Option<u32>>, last: Option<usize>) -> (r: Option<usize>)
    requires
        last matches Some(l) ==> is_close(keys@, l as int),
    ensures
        match r {
            Some(m) => can_follow(
                keys@,
                match last {
                    Some(l) => Some(l as int),
                    None => None,
                },
                m as int,
            ) && forall|c: int|
                #![trigger is_close(keys@, c)]
                can_follow(
                    keys@,
                    match last {
                        Some(l) => Some(l as int),
                        None => None,
                    },
                    c,
                ) ==> c == m || key_before(keys@, m as int, c),
            None => forall|c: int|
                #![trigger is_close(keys@, c)]
                !can_follow(
                    keys@,
                    match last {
                        Some(l) => Some(l as int),
                        None => None,
                    },
                    c,
                ),
        },
{
    let ghost before: Option<int> = match last {
        Some(l) => Some(l as int),
        None => None,
    };
    let mut best: Option<usize> = None;
    let mut c: usize = 0;
    while c < keys.len()
        invariant
            c <= keys.len(),
            last matches Some(l) ==> is_close(keys@, l as int),
            before == match last {
                Some(l) => Some(l as int),
                None => None::<int>,
            },
            match best {
                Some(m) => m < c && can_follow(keys@, before, m as int) && forall|x: int|
                    #![trigger is_close(keys@, x)]
                    0 <= x < c && can_follow(keys@, before, x) ==> x == m || key_before(
                        keys@,
                        m as int,
                        x,
                    ),
                None => forall|x: int|
                    #![trigger is_close(keys@, x)]
                    0 <= x < c ==> !can_follow(keys@, before, x),
            },
        decreases keys.len() - c,
    {
        if keys[c].is_some() {
            let follows = match last {
                Some(l) => comes_before(keys, l, c),
                None => true,
            };
            if follows {
                match best {
                    Some(m) => {
                        if comes_before(keys, c, m) {
                            best = Some(c);
                        }
                    },
                    None => {
                        best = Some(c);
                    },
                }
            }
        }
        c += 1;
    }
    best
}

/// The expected names of an error, cut down where they are more than
/// three: the three names closest to what was found, closest first, and
/// the number of the names that are left out. `keys` holds for each name
/// how close it is, the smaller the closer, and nothing for a name that
/// is not close.
pub fn shorten(expected: Vec<String>, keys: Vec<Option<u32>>) -> (r: Vec<ErrorItem>)
    requires
        expected.len() == keys.len(),
    ensures
        expected.len() <= 3 ==> items_view(r@) == Seq::new(
            expected.len() as nat,
            |a: int| ErrorItemView::Expected(expected@[a]@),
        ),
        expected.len() > 3 ==> exists|picks: Seq<int>|
            #![trigger closest(keys@, picks)]
            closest(keys@, picks) && items_view(r@) == kept_items(expected@, picks),
{
    let mut out: Vec<ErrorItem> = Vec::new();
    if expected.len() <= 3 {
        let mut a: usize = 0;
        while a < expected.len()
            invariant
                a <= expected.len(),
                out.len() == a,
                forall|x: int|
                    0 <= x < a ==> (#[trigger] out@[x])@ == ErrorItemView::Expected(expected@[x]@),
            decreases expected.len() - a,
        {
            out.push(ErrorItem::Expected(expected[a].clone()));
            a += 1;
        }
        assert(items_view(out@) =~= Seq::new(
            expected.len() as nat,
            |a: int| ErrorItemView::Expected(expected@[a]@),
        ));
        return out;
    }
    let mut picks: Vec<usize> = Vec::new();
    let mut done = false;
    while picks.len() < 3 && !done
        invariant
            picks.len() <= 3,
            forall|a: int| 0 <= a < picks.len() ==> is_close(keys@, (#[trigger] picks@[a]) as int),
            forall|a: int, b: int|
                0 <= a < b < picks.len() ==> key_before(
                    keys@,
                    (#[trigger] picks@[a]) as int,
                    (#[trigger] picks@[b]) as int,
                ),
            forall|j: int|
                #![trigger is_close(keys@, j)]
                is_close(keys@, j) && !places(picks@).contains(j) ==> !done && (picks.len() > 0
                    ==> key_before(keys@, picks@[picks.len() - 1] as int, j)),
        decreases 3 - picks.len(), (if done { 0int } else { 1int }),
    {
        let last = if picks.len() > 0 {
            Some(picks[picks.len() - 1])
        } else {
            None
        };
        let ghost old_picks = picks@;
        match next_pick(&keys, last) {
            Some(m) => {
                picks.push(m);
                proof {
                    assert forall|j: int|
                        #![trigger is_close(keys@, j)]
                        is_close(keys@, j) && !places(picks@).contains(j) implies key_before(
                        keys@,
                        m as int,
                        j,
                    ) by {
                        if places(old_picks).contains(j) {
                            let a = choose|a: int|
                                0 <= a < places(old_picks).len() && places(old_picks)[a] == j;
                            assert(places(picks@)[a] == j);
                        }
                        assert(places(picks@)[old_picks.len() as int] == m as int);
                    }
                    assert forall|a: int, b: int| 0 <= a < b < picks.len() implies key_before(
                        keys@,
                        (#[trigger] picks@[a]) as int,
                        (#[trigger] picks@[b]) as int,
                    ) by {
                        if b == old_picks.len() {
                            if a + 1 < b {
                                assert(key_before(
                                    keys@,
                                    old_picks[a] as int,
                                    old_picks[b - 1] as int,
                                ));
                            }
                        } else {
                            assert(picks@[a] == old_picks[a] && picks@[b] == old_picks[b]);
                        }
                    }
                }
            },
            None => {
                proof {
                    assert forall|j: int|
                        #![trigger is_close(keys@, j)]
                        is_close(keys@, j) implies places(picks@).contains(j) by {
                        if !places(picks@).contains(j) {
                            assert(can_follow(
                                keys@,
                                match last {
                                    Some(l) => Some(l as int),
                                    None => None,
                                },
                                j,
                            ));
                        }
                    }
                }
                done = true;
            },
        }
    }
    let ghost chosen = places(picks@);
    proof {
        assert forall|j: int|
            #![trigger is_close(keys@, j)]
            is_close(keys@, j) && !chosen.contains(j) implies chosen.len() == 3 && key_before(
            keys@,
            chosen[2],
            j,
        ) by {}
        assert(closest(keys@, chosen));
    }
    let mut a: usize = 0;
    while a < picks.len()
        invariant
            a <= picks.len() <= 3,
            expected.len() == keys.len(),
            out.len() == a,
            forall|x: int| 0 <= x < picks.len() ==> is_close(keys@, (#[trigger] picks@[x]) as int),
            forall|x: int|
                0 <= x < a ==> (#[trigger] out@[x])@ == ErrorItemView::Expected(
                    expected@[picks@[x] as int]@,
                ),
        decreases picks.len() - a,
    {
        assert(is_close(keys@, picks@[a as int] as int));
        out.push(ErrorItem::Expected(expected[picks[a]].clone()));
        a += 1;
    }
    if picks.len() < expected.len() {
        let mut text = String::from_str("one of ");
        push_decimal(&mut text, (expected.len() - picks.len()) as u64);
        text.append(" options");
        assert(text@ =~= rest_text((expected.len() - picks.len()) as nat));
        out.push(ErrorItem::Expected(text));
    }
    assert(items_view(out@) =~= kept_items(expected@, chosen));
    out
}

} // verus!
