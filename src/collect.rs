use vstd::prelude::*;

use crate::assort::{any_listed, listed_any};
use crate::config;
use crate::folder::{Folder, ROOT_NAME};
use crate::mail::Mail;
use crate::text::has_string;

verus! {

/// The folders of `v` in order of priority: none is preferred to one before
/// it.
pub open spec fn by_priority(v: Seq<config::Folder>) -> bool {
    forall|a: int, b: int| 0 <= a < b < v.len() ==> v[a].priority >= v[b].priority
}

/// `out` holds the folders of `input` through the positions `pos`, each
/// once, and folders of equal priority keep their order.
pub open spec fn stable_permutation(
    input: Seq<config::Folder>,
    out: Seq<config::Folder>,
    pos: Seq<int>,
) -> bool {
    &&& out.len() == input.len()
    &&& pos.len() == out.len()
    &&& forall|k: int| 0 <= k < pos.len() ==> 0 <= #[trigger] pos[k] < input.len()
    &&& forall|k: int| 0 <= k < pos.len() ==> #[trigger] out[k] == input[pos[k]]
    &&& forall|a: int, b: int| 0 <= a < b < pos.len() ==> pos[a] != pos[b]
    &&& forall|a: int, b: int|
        0 <= a < b < pos.len() && out[a].priority == out[b].priority ==> pos[a] < pos[b]
}

/// Sorts the folders by descending priority, keeping the configured order
/// among equals.
pub fn sort_folders(folders: Vec<config::Folder>) -> (r: Vec<config::Folder>)
    ensures
        by_priority(r@),
        exists|pos: Seq<int>| stable_permutation(folders@, r@, pos),
{
    let ghost input = folders@;
    let mut rest = folders;
    let mut out: Vec<config::Folder> = Vec::new();
    let ghost mut idx: Seq<int> = Seq::new(input.len(), |k: int| k);
    let ghost mut pos: Seq<int> = Seq::empty();
    while rest.len() > 0
        invariant
            idx.len() == rest@.len(),
            pos.len() == out@.len(),
            out@.len() + rest@.len() == input.len(),
            forall|k: int| 0 <= k < idx.len() ==> 0 <= #[trigger] idx[k] < input.len(),
            forall|k: int| 0 <= k < pos.len() ==> 0 <= #[trigger] pos[k] < input.len(),
            forall|k: int| 0 <= k < idx.len() ==> #[trigger] rest@[k] == input[idx[k]],
            forall|k: int| 0 <= k < pos.len() ==> #[trigger] out@[k] == input[pos[k]],
            forall|a: int, b: int| 0 <= a < b < idx.len() ==> idx[a] < idx[b],
            forall|a: int, b: int| 0 <= a < b < pos.len() ==> pos[a] != pos[b],
            forall|a: int, b: int| 0 <= a < pos.len() && 0 <= b < idx.len() ==> pos[a] != idx[b],
            by_priority(out@),
            forall|a: int, b: int|
                0 <= a < out@.len() && 0 <= b < rest@.len() ==> out@[a].priority
                    >= rest@[b].priority,
            forall|a: int, b: int|
                0 <= a < b < pos.len() && out@[a].priority == out@[b].priority ==> pos[a] < pos[b],
            forall|a: int, b: int|
                0 <= a < out@.len() && 0 <= b < rest@.len() && out@[a].priority
                    == rest@[b].priority ==> pos[a] < idx[b],
        decreases rest@.len(),
    {
        let mut best: usize = 0;
        let mut k: usize = 1;
        while k < rest.len()
            invariant
                0 <= best < k <= rest@.len(),
                forall|j: int| 0 <= j < k ==> rest@[j].priority <= rest@[best as int].priority,
                forall|j: int| 0 <= j < best ==> rest@[j].priority < rest@[best as int].priority,
            decreases rest@.len() - k,
        {
            if rest[k].priority > rest[best].priority {
                best = k;
            }
            k = k + 1;
        }
        let ghost r0 = rest@;
        let ghost o0 = out@;
        let ghost chosen = idx[best as int];
        let ghost i0 = idx;
        let f = rest.remove(best);
        out.push(f);
        proof {
            pos = pos.push(chosen);
            idx = idx.remove(best as int);
            assert forall|b: int| 0 <= b < idx.len() implies #[trigger] rest@[b] == input[idx[b]] by {
                if b < best {
                    assert(rest@[b] == r0[b]);
                } else {
                    assert(rest@[b] == r0[b + 1]);
                }
            }
            assert forall|a: int, b: int|
                0 <= a < out@.len() && 0 <= b < rest@.len() && out@[a].priority
                    == rest@[b].priority implies pos[a] < idx[b] by {
                let ob = if b < best { b } else { b + 1 };
                assert(rest@[b] == r0[ob]);
                if a == o0.len() {
                    assert(r0[ob].priority <= r0[best as int].priority);
                    if ob < best {
                        assert(r0[ob].priority < r0[best as int].priority);
                    }
                }
            }
            assert forall|a: int, b: int|
                0 <= a < out@.len() && 0 <= b < rest@.len() implies out@[a].priority
                    >= rest@[b].priority by {
                let ob = if b < best { b } else { b + 1 };
                assert(rest@[b] == r0[ob]);
            }
            assert forall|a: int, b: int| 0 <= a < b < pos.len() && out@[a].priority == out@[b].priority implies pos[a] < pos[b] by {
                if b == o0.len() {
                    assert(out@[b] == r0[best as int]);
                }
            }
            assert forall|a: int, b: int| 0 <= a < pos.len() && 0 <= b < idx.len() implies pos[a] != idx[b] by {
                let ob = if b < best { b } else { b + 1 };
                assert(idx[b] == i0[ob]);
            }
        }
    }
    proof {
        assert(stable_permutation(input, out@, pos));
    }
    out
}


/// `f` is the configured folder `c`.
pub open spec fn converted(c: config::Folder, f: Folder) -> bool {
    &&& f.priority == c.priority
    &&& f.keywords@ == c.keywords@
    &&& f.flagging_keywords == c.flagging_keywords
    &&& f.name@ == c.name@
    &&& f.mark_read == c.mark_read
}

fn to_folders(v: Vec<config::Folder>) -> (r: Vec<Folder>)
    ensures
        r@.len() == v@.len(),
        forall|k: int| 0 <= k < v@.len() ==> converted(v@[k], #[trigger] r@[k]),
{
    let ghost orig = v@;
    let mut v = v;
    let mut out: Vec<Folder> = Vec::new();
    while v.len() > 0
        invariant
            out@.len() + v@.len() == orig.len(),
            v@ == orig.subrange(out@.len() as int, orig.len() as int),
            forall|k: int| 0 <= k < out@.len() ==> converted(orig[k], #[trigger] out@[k]),
        decreases v@.len(),
    {
        let f = v.remove(0);
        out.push(Folder::new(f));
        assert(v@ =~= orig.subrange(out@.len() as int, orig.len() as int));
    }
    out
}

/// The folders in order of preference, and the index of the catch-all
/// folder: the first one named as the root, or else one appended last.
pub fn assemble_folders(folders: Vec<config::Folder>) -> (r: (Vec<Folder>, usize))
    ensures
        r.1 < r.0@.len(),
        r.0@[r.1 as int].name@ == ROOT_NAME@,
        forall|k: int| 0 <= k < r.1 ==> #[trigger] r.0@[k].name@ != ROOT_NAME@,
        exists|sorted: Seq<config::Folder>, pos: Seq<int>|
            {
                &&& stable_permutation(folders@, sorted, pos)
                &&& by_priority(sorted)
                &&& forall|k: int| 0 <= k < sorted.len() ==> converted(sorted[k], #[trigger] r.0@[k])
                &&& r.0@.len() == sorted.len() || (r.0@.len() == sorted.len() + 1 && r.1
                    == sorted.len())
                &&& (forall|k: int| 0 <= k < sorted.len() ==> #[trigger] sorted[k].name@ != ROOT_NAME@)
                    ==> r.1 == sorted.len() && r.0@.len() == sorted.len() + 1
            },
{
    let sorted = sort_folders(folders);
    let ghost s = sorted@;
    let ghost pos = choose|pos: Seq<int>| stable_permutation(folders@, s, pos);
    let mut out = to_folders(sorted);
    let root = String::from_str(ROOT_NAME);
    let mut k: usize = 0;
    while k < out.len() && out[k].name != root
        invariant
            k <= out@.len(),
            root@ == ROOT_NAME@,
            forall|j: int| 0 <= j < k ==> #[trigger] out@[j].name@ != ROOT_NAME@,
        decreases out@.len() - k,
    {
        k = k + 1;
    }
    if k == out.len() {
        out.push(Folder::rest());
    }
    proof {
        assert(stable_permutation(folders@, s, pos));
    }
    (out, k)
}

/// Whether a message is on a deduplicated list.
pub open spec fn on_dedup_list(m: Mail, dedup: Seq<String>) -> bool {
    any_listed(m.list_ids@, dedup)
}

/// All messages in discovery order: the filed ones, then the new ones, with
/// new ones on a deduplicated list moved last so that another copy of them
/// comes first.
pub fn arrange_mails(filed: Vec<Mail>, new: Vec<Mail>, dedup: &Vec<String>) -> (r: Vec<Mail>)
    ensures
        r@ == filed@ + new@.filter(|m: Mail| !on_dedup_list(m, dedup@)) + new@.filter(
            |m: Mail| on_dedup_list(m, dedup@),
        ),
{
    let ghost orig = new@;
    let ghost keep = |m: Mail| !on_dedup_list(m, dedup@);
    let ghost late = |m: Mail| on_dedup_list(m, dedup@);
    let mut new = new;
    let mut out = filed;
    let mut later: Vec<Mail> = Vec::new();
    let ghost mut k: int = 0;
    proof {
        reveal(Seq::filter);
        assert(orig.subrange(0, 0) =~= Seq::<Mail>::empty());
        assert(out@ =~= filed@ + orig.subrange(0, 0).filter(keep));
    }
    while new.len() > 0
        invariant
            0 <= k <= orig.len(),
            new@ == orig.subrange(k, orig.len() as int),
            out@ == filed@ + orig.subrange(0, k).filter(keep),
            later@ == orig.subrange(0, k).filter(late),
            keep == (|m: Mail| !on_dedup_list(m, dedup@)),
            late == (|m: Mail| on_dedup_list(m, dedup@)),
        decreases new@.len(),
    {
        let m = new.remove(0);
        let ghost pre = orig.subrange(0, k);
        proof {
            reveal(Seq::filter);
            assert(orig.subrange(0, k + 1).drop_last() =~= pre);
            assert(orig.subrange(0, k + 1).last() == m);
        }
        if listed_any(&m.list_ids, dedup) {
            later.push(m);
        } else {
            out.push(m);
        }
        proof {
            k = k + 1;
            assert(new@ =~= orig.subrange(k, orig.len() as int));
            assert(out@ =~= filed@ + orig.subrange(0, k).filter(keep));
            assert(later@ =~= orig.subrange(0, k).filter(late));
        }
    }
    proof {
        assert(orig.subrange(0, k) =~= orig);
    }
    out.append(&mut later);
    out
}

} // verus!
