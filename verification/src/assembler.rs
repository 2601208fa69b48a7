//! Assembly of tool calls from the pieces that a response streams.
//!
//! A response may carry several tool calls at once, each told apart by a
//! small integer index, and each arriving in pieces. The assembler keeps one
//! record per index and hands the finished calls out in ascending order of
//! index.

use vstd::prelude::*;
use vstd::string::StringExecFns;
use crate::delta::{ToolCallFragment, ToolCallFragmentView};
use crate::message::{calls_view, ToolCall, ToolCallFunction, ToolCallView};

verus! {

/// The record of an index of which no piece has said anything yet.
pub open spec fn blank_call() -> ToolCallView {
    ToolCallView {
        id: Seq::empty(),
        kind: "function"@,
        name: Seq::empty(),
        arguments: Seq::empty(),
    }
}

/// The record after one more piece: an identifier or a kind in the piece
/// replaces the record's, a piece of the name or of the arguments is
/// appended to what the record holds.
pub open spec fn merge_piece(call: ToolCallView, piece: ToolCallFragmentView) -> ToolCallView {
    ToolCallView {
        id: match piece.id {
            Some(id) => id,
            None => call.id,
        },
        kind: match piece.kind {
            Some(kind) => kind,
            None => call.kind,
        },
        name: match piece.name {
            Some(name) => call.name + name,
            None => call.name,
        },
        arguments: match piece.arguments {
            Some(arguments) => call.arguments + arguments,
            None => call.arguments,
        },
    }
}

/// The indices of the records ascend strictly.
pub open spec fn ascending(entries: Seq<(int, ToolCallView)>) -> bool {
    forall|i: int, j: int| 0 <= i < j < entries.len() ==> entries[i].0 < entries[j].0
}

/// The number of leading records whose index is below `index`: among
/// ascending records, the place of `index`.
pub open spec fn rank(entries: Seq<(int, ToolCallView)>, index: int) -> int
    decreases entries.len(),
{
    if entries.len() == 0 || entries[0].0 >= index {
        0
    } else {
        1 + rank(entries.drop_first(), index)
    }
}

/// Some record has the index.
pub open spec fn has_index(entries: Seq<(int, ToolCallView)>, index: int) -> bool {
    exists|i: int| 0 <= i < entries.len() && entries[i].0 == index
}

/// The records after one more piece: the piece is merged into the record of
/// its index, which is first made, blank and at its place in the order, where
/// the index is new.
pub open spec fn absorb(entries: Seq<(int, ToolCallView)>, piece: ToolCallFragmentView) -> Seq<
    (int, ToolCallView),
> {
    let at = rank(entries, piece.index);
    if at < entries.len() && entries[at].0 == piece.index {
        entries.update(at, (piece.index, merge_piece(entries[at].1, piece)))
    } else {
        entries.insert(at, (piece.index, merge_piece(blank_call(), piece)))
    }
}

/// The records after a run of pieces, taken in order.
pub open spec fn absorb_all(
    entries: Seq<(int, ToolCallView)>,
    pieces: Seq<ToolCallFragmentView>,
) -> Seq<(int, ToolCallView)>
    decreases pieces.len(),
{
    if pieces.len() == 0 {
        entries
    } else {
        absorb(absorb_all(entries, pieces.drop_last()), pieces.last())
    }
}

/// The calls of the records, in the records' order.
pub open spec fn finished_calls(entries: Seq<(int, ToolCallView)>) -> Seq<ToolCallView> {
    Seq::new(entries.len(), |i: int| entries[i].1)
}

/// The record that the pieces give the index `index`, whatever other
/// indices stand between them: the pieces of that index merged in order into
/// a blank record.
pub open spec fn record_of(pieces: Seq<ToolCallFragmentView>, index: int) -> ToolCallView
    decreases pieces.len(),
{
    if pieces.len() == 0 {
        blank_call()
    } else if pieces.last().index == index {
        merge_piece(record_of(pieces.drop_last(), index), pieces.last())
    } else {
        record_of(pieces.drop_last(), index)
    }
}

/// The indices that occur among the pieces.
pub open spec fn indices_of(pieces: Seq<ToolCallFragmentView>) -> Set<int> {
    Set::new(|index: int| exists|i: int| 0 <= i < pieces.len() && pieces[i].index == index)
}

/// The indices of the records.
pub open spec fn entry_indices(entries: Seq<(int, ToolCallView)>) -> Set<int> {
    Set::new(|index: int| has_index(entries, index))
}

/// Among ascending records, the place of an index is the first position
/// whose record does not lie below it.
pub proof fn lemma_rank_is_first_not_below(entries: Seq<(int, ToolCallView)>, index: int, at: int)
    requires
        0 <= at <= entries.len(),
        forall|j: int| 0 <= j < at ==> entries[j].0 < index,
        at == entries.len() || entries[at].0 >= index,
    ensures
        rank(entries, index) == at,
    decreases entries.len(),
{
    if at > 0 {
        let rest = entries.drop_first();
        assert forall|j: int| 0 <= j < at - 1 implies rest[j].0 < index by {
            assert(rest[j] == entries[j + 1]);
        }
        lemma_rank_is_first_not_below(rest, index, at - 1);
    }
}

/// The place of an index lies within the records; all records before it
/// are below the index, and the record at it, if any, is not.
pub proof fn lemma_rank_bounds(entries: Seq<(int, ToolCallView)>, index: int)
    ensures
        0 <= rank(entries, index) <= entries.len(),
        forall|j: int| 0 <= j < rank(entries, index) ==> entries[j].0 < index,
        rank(entries, index) < entries.len() ==> entries[rank(entries, index)].0 >= index,
    decreases entries.len(),
{
    if entries.len() == 0 || entries[0].0 >= index {
    } else {
        let rest = entries.drop_first();
        lemma_rank_bounds(rest, index);
        assert forall|j: int| 0 <= j < rank(entries, index) implies entries[j].0 < index by {
            if j > 0 {
                assert(rest[j - 1] == entries[j]);
            }
        }
        if rank(entries, index) < entries.len() {
            assert(rest[rank(rest, index)] == entries[rank(entries, index)]);
        }
    }
}

/// One more piece keeps the records ascending, adds the piece's index to
/// theirs and no other, and touches no record but that of its index.
pub proof fn lemma_absorb(entries: Seq<(int, ToolCallView)>, piece: ToolCallFragmentView)
    requires
        ascending(entries),
    ensures
        ascending(absorb(entries, piece)),
        entry_indices(absorb(entries, piece)) == entry_indices(entries).insert(piece.index),
        absorb(entries, piece).len() == if has_index(entries, piece.index) {
            entries.len()
        } else {
            entries.len() + 1
        },
        forall|i: int|
            0 <= i < absorb(entries, piece).len() && absorb(entries, piece)[i].0 != piece.index
                ==> exists|j: int|
                0 <= j < entries.len() && entries[j] == #[trigger] absorb(entries, piece)[i],
        forall|i: int|
            0 <= i < absorb(entries, piece).len() && #[trigger] absorb(
                entries,
                piece,
            )[i].0 == piece.index ==> absorb(entries, piece)[i].1 == merge_piece(
                record_at(entries, piece.index),
                piece,
            ),
{
    let at = rank(entries, piece.index);
    let after = absorb(entries, piece);
    lemma_rank_bounds(entries, piece.index);
    if at < entries.len() && entries[at].0 == piece.index {
        assert(has_index(entries, piece.index));
        assert forall|index: int| entry_indices(after).contains(index) implies entry_indices(
            entries,
        ).insert(piece.index).contains(index) by {
            let i = choose|i: int| 0 <= i < after.len() && after[i].0 == index;
            if i != at {
                assert(entries[i].0 == index);
            }
        }
        assert forall|index: int|
            entry_indices(entries).insert(piece.index).contains(index) implies entry_indices(
            after,
        ).contains(index) by {
            if index == piece.index {
                assert(after[at].0 == index);
            } else {
                let i = choose|i: int| 0 <= i < entries.len() && entries[i].0 == index;
                assert(after[i].0 == index);
            }
        }
        assert(entry_indices(after) =~= entry_indices(entries).insert(piece.index));
        assert forall|i: int| 0 <= i < after.len() && after[i].0 != piece.index implies exists|
            j: int,
        |
            0 <= j < entries.len() && entries[j] == #[trigger] after[i] by {
            assert(entries[i] == after[i]);
        }
        lemma_record_at(entries, piece.index, at);
        assert forall|i: int|
            0 <= i < after.len() && #[trigger] after[i].0 == piece.index implies after[i].1
            == merge_piece(record_at(entries, piece.index), piece) by {
            if i < at {
                assert(entries[i].0 < piece.index);
            } else if i > at {
                assert(entries[at].0 < entries[i].0);
            }
        }
    } else {
        assert(!has_index(entries, piece.index)) by {
            if has_index(entries, piece.index) {
                let i = choose|i: int| 0 <= i < entries.len() && entries[i].0 == piece.index;
                if i < at {
                    assert(entries[i].0 < piece.index);
                } else {
                    assert(entries[at].0 <= entries[i].0);
                    assert(entries[at].0 >= piece.index);
                }
            }
        }
        assert forall|i: int, j: int| 0 <= i < j < after.len() implies after[i].0
            < after[j].0 by {
            if j < at {
            } else if j == at {
            } else if i < at {
                assert(after[j] == entries[j - 1]);
                if j - 1 > at {
                    assert(entries[at].0 < entries[j - 1].0);
                }
            } else if i == at {
                assert(after[j] == entries[j - 1]);
                if j - 1 > at {
                    assert(entries[at].0 < entries[j - 1].0);
                }
            } else {
                assert(after[i] == entries[i - 1]);
                assert(after[j] == entries[j - 1]);
            }
        }
        assert forall|index: int| entry_indices(after).contains(index) implies entry_indices(
            entries,
        ).insert(piece.index).contains(index) by {
            let i = choose|i: int| 0 <= i < after.len() && after[i].0 == index;
            if i < at {
                assert(entries[i].0 == index);
            } else if i > at {
                assert(entries[i - 1].0 == index);
            }
        }
        assert forall|index: int|
            entry_indices(entries).insert(piece.index).contains(index) implies entry_indices(
            after,
        ).contains(index) by {
            if index == piece.index {
                assert(after[at].0 == index);
            } else {
                let i = choose|i: int| 0 <= i < entries.len() && entries[i].0 == index;
                if i < at {
                    assert(after[i].0 == index);
                } else {
                    assert(after[i + 1].0 == index);
                }
            }
        }
        assert(entry_indices(after) =~= entry_indices(entries).insert(piece.index));
        assert forall|i: int| 0 <= i < after.len() && after[i].0 != piece.index implies exists|
            j: int,
        |
            0 <= j < entries.len() && entries[j] == #[trigger] after[i] by {
            if i < at {
                assert(entries[i] == after[i]);
            } else {
                assert(entries[i - 1] == after[i]);
            }
        }
        lemma_record_at_absent(entries, piece.index);
        assert forall|i: int|
            0 <= i < after.len() && #[trigger] after[i].0 == piece.index implies after[i].1
            == merge_piece(record_at(entries, piece.index), piece) by {
            if i < at {
                assert(entries[i].0 == piece.index);
            } else if i > at {
                assert(entries[i - 1].0 == piece.index);
            }
        }
    }
}

/// The record that the records hold for an index, blank where they hold none.
pub open spec fn record_at(entries: Seq<(int, ToolCallView)>, index: int) -> ToolCallView {
    if has_index(entries, index) {
        entries[choose|i: int| 0 <= i < entries.len() && entries[i].0 == index].1
    } else {
        blank_call()
    }
}

/// Among ascending records, the record for an index is the one at the
/// position that holds the index.
pub proof fn lemma_record_at(entries: Seq<(int, ToolCallView)>, index: int, at: int)
    requires
        ascending(entries),
        0 <= at < entries.len(),
        entries[at].0 == index,
    ensures
        record_at(entries, index) == entries[at].1,
{
    assert(has_index(entries, index));
    let i = choose|i: int| 0 <= i < entries.len() && entries[i].0 == index;
    if i < at {
        assert(entries[i].0 < entries[at].0);
    } else if i > at {
        assert(entries[at].0 < entries[i].0);
    }
}

/// The record for an index that no record has is blank.
pub proof fn lemma_record_at_absent(entries: Seq<(int, ToolCallView)>, index: int)
    requires
        !has_index(entries, index),
    ensures
        record_at(entries, index) == blank_call(),
{
}

/// The records that the pieces of one response assemble to.
pub open spec fn assembled(pieces: Seq<ToolCallFragmentView>) -> Seq<(int, ToolCallView)> {
    absorb_all(Seq::empty(), pieces)
}

/// An index that occurs in no piece has a blank record.
pub proof fn lemma_record_of_unseen(pieces: Seq<ToolCallFragmentView>, index: int)
    requires
        !indices_of(pieces).contains(index),
    ensures
        record_of(pieces, index) == blank_call(),
    decreases pieces.len(),
{
    if pieces.len() > 0 {
        let earlier = pieces.drop_last();
        assert(pieces[pieces.len() - 1].index != index);
        assert(!indices_of(earlier).contains(index)) by {
            if indices_of(earlier).contains(index) {
                let i = choose|i: int| 0 <= i < earlier.len() && earlier[i].index == index;
                assert(pieces[i].index == index);
            }
        }
        lemma_record_of_unseen(earlier, index);
    }
}

/// The indices of the pieces are those of the earlier pieces and that of
/// the last.
proof fn lemma_indices_of_step(pieces: Seq<ToolCallFragmentView>)
    requires
        pieces.len() > 0,
    ensures
        indices_of(pieces) == indices_of(pieces.drop_last()).insert(pieces.last().index),
{
    let earlier = pieces.drop_last();
    let grown = indices_of(earlier).insert(pieces.last().index);
    assert forall|index: int| indices_of(pieces).contains(index) implies grown.contains(
        index,
    ) by {
        let i = choose|i: int| 0 <= i < pieces.len() && pieces[i].index == index;
        if i < pieces.len() - 1 {
            assert(earlier[i].index == index);
        }
    }
    assert forall|index: int| grown.contains(index) implies indices_of(pieces).contains(
        index,
    ) by {
        if index == pieces.last().index {
            assert(pieces[pieces.len() - 1].index == index);
        } else {
            let i = choose|i: int| 0 <= i < earlier.len() && earlier[i].index == index;
            assert(pieces[i].index == index);
        }
    }
    assert(indices_of(pieces) =~= grown);
}

/// However the pieces of several tool calls are interleaved, they assemble to
/// one record for each distinct index, in strictly ascending order of index,
/// and the record of an index is what the pieces of that index alone give.
pub proof fn lemma_assembled(pieces: Seq<ToolCallFragmentView>)
    ensures
        ascending(assembled(pieces)),
        entry_indices(assembled(pieces)) == indices_of(pieces),
        indices_of(pieces).finite(),
        assembled(pieces).len() == indices_of(pieces).len(),
        forall|i: int|
            0 <= i < assembled(pieces).len() ==> (#[trigger] assembled(pieces)[i]).1 == record_of(
                pieces,
                assembled(pieces)[i].0,
            ),
    decreases pieces.len(),
{
    if pieces.len() == 0 {
        assert(entry_indices(assembled(pieces)) =~= Set::<int>::empty());
        assert(indices_of(pieces) =~= Set::<int>::empty());
    } else {
        let earlier = pieces.drop_last();
        let last = pieces.last();
        let before = assembled(earlier);
        let after = assembled(pieces);
        lemma_assembled(earlier);
        lemma_absorb(before, last);
        lemma_indices_of_step(pieces);
        assert(after == absorb(before, last));
        assert(has_index(before, last.index) == indices_of(earlier).contains(last.index)) by {
            assert(entry_indices(before).contains(last.index) == has_index(before, last.index));
        }
        assert forall|i: int| 0 <= i < after.len() implies (#[trigger] after[i]).1 == record_of(
            pieces,
            after[i].0,
        ) by {
            if after[i].0 == last.index {
                if has_index(before, last.index) {
                    let j = choose|j: int| 0 <= j < before.len() && before[j].0 == last.index;
                    lemma_record_at(before, last.index, j);
                    assert(before[j].1 == record_of(earlier, before[j].0));
                } else {
                    lemma_record_of_unseen(earlier, last.index);
                }
            } else {
                let j = choose|j: int| 0 <= j < before.len() && before[j] == after[i];
                assert(before[j].1 == record_of(earlier, before[j].0));
            }
        }
    }
}

/// The pieces of one index among the pieces, in order.
pub open spec fn pieces_at(pieces: Seq<ToolCallFragmentView>, index: int) -> Seq<
    ToolCallFragmentView,
>
    decreases pieces.len(),
{
    if pieces.len() == 0 {
        Seq::empty()
    } else if pieces.last().index == index {
        pieces_at(pieces.drop_last(), index).push(pieces.last())
    } else {
        pieces_at(pieces.drop_last(), index)
    }
}

/// The record of an index is the record that its own pieces give, and the
/// index occurs among the pieces where it has pieces.
proof fn lemma_pieces_at(pieces: Seq<ToolCallFragmentView>, index: int)
    ensures
        record_of(pieces, index) == record_of(pieces_at(pieces, index), index),
        indices_of(pieces).contains(index) == (pieces_at(pieces, index).len() > 0),
    decreases pieces.len(),
{
    if pieces.len() > 0 {
        let earlier = pieces.drop_last();
        lemma_pieces_at(earlier, index);
        lemma_indices_of_step(pieces);
        if pieces.last().index == index {
            let own = pieces_at(earlier, index).push(pieces.last());
            assert(own.drop_last() =~= pieces_at(earlier, index));
        }
    } else {
        assert(indices_of(pieces) =~= Set::<int>::empty());
    }
}

/// Ascending records with the same indices have them at the same places.
proof fn lemma_ascending_same_indices(
    first: Seq<(int, ToolCallView)>,
    second: Seq<(int, ToolCallView)>,
)
    requires
        ascending(first),
        ascending(second),
        forall|index: int| has_index(first, index) == has_index(second, index),
    ensures
        first.len() == second.len(),
        forall|i: int| 0 <= i < first.len() ==> first[i].0 == second[i].0,
    decreases first.len(),
{
    if first.len() == 0 {
        if second.len() > 0 {
            assert(has_index(second, second[0].0));
            assert(has_index(first, second[0].0));
        }
    } else {
        let top = first.last().0;
        assert(has_index(first, top));
        assert(has_index(second, top));
        let j = choose|j: int| 0 <= j < second.len() && second[j].0 == top;
        let other = second.last().0;
        assert(has_index(second, other));
        assert(has_index(first, other));
        let i = choose|i: int| 0 <= i < first.len() && first[i].0 == other;
        assert(other <= top) by {
            if i < first.len() - 1 {
                assert(first[i].0 < first[first.len() - 1].0);
            }
        }
        assert(j == second.len() - 1) by {
            if j < second.len() - 1 {
                assert(second[j].0 < second[second.len() - 1].0);
            }
        }
        let shorter = first.drop_last();
        let other_shorter = second.drop_last();
        assert forall|index: int| has_index(shorter, index) == has_index(
            other_shorter,
            index,
        ) by {
            if has_index(shorter, index) {
                let a = choose|a: int| 0 <= a < shorter.len() && shorter[a].0 == index;
                assert(first[a].0 < first[first.len() - 1].0);
                assert(has_index(first, index));
                let b = choose|b: int| 0 <= b < second.len() && second[b].0 == index;
                assert(other_shorter[b].0 == index);
            }
            if has_index(other_shorter, index) {
                let b = choose|b: int| 0 <= b < other_shorter.len() && other_shorter[b].0
                    == index;
                assert(second[b].0 < second[second.len() - 1].0);
                assert(has_index(second, index));
                let a = choose|a: int| 0 <= a < first.len() && first[a].0 == index;
                assert(shorter[a].0 == index);
            }
        }
        lemma_ascending_same_indices(shorter, other_shorter);
        assert forall|i: int| 0 <= i < first.len() implies first[i].0 == second[i].0 by {
            if i < first.len() - 1 {
                assert(shorter[i].0 == other_shorter[i].0);
            }
        }
    }
}

/// Two runs of pieces that give every index the same pieces in the same
/// order assemble to the same records, however the pieces of different
/// indices are interleaved in each, and whichever index is seen first.
pub proof fn lemma_interleaving(first: Seq<ToolCallFragmentView>, second: Seq<ToolCallFragmentView>)
    requires
        forall|index: int| pieces_at(first, index) == pieces_at(second, index),
    ensures
        assembled(first) == assembled(second),
{
    let a = assembled(first);
    let b = assembled(second);
    lemma_assembled(first);
    lemma_assembled(second);
    assert forall|index: int| has_index(a, index) == has_index(b, index) by {
        lemma_pieces_at(first, index);
        lemma_pieces_at(second, index);
        assert(entry_indices(a).contains(index) == has_index(a, index));
        assert(entry_indices(b).contains(index) == has_index(b, index));
    }
    lemma_ascending_same_indices(a, b);
    assert forall|i: int| 0 <= i < a.len() implies a[i] == b[i] by {
        lemma_pieces_at(first, a[i].0);
        lemma_pieces_at(second, a[i].0);
    }
    assert(a =~= b);
}

/// The text that two pieces carry one after the other.
pub open spec fn joined(first: Option<Seq<char>>, second: Option<Seq<char>>) -> Option<Seq<char>> {
    match (first, second) {
        (Some(a), Some(b)) => Some(a + b),
        (Some(a), None) => Some(a),
        (None, Some(b)) => Some(b),
        (None, None) => None,
    }
}

/// A piece whose name and arguments are cut in two and fed as two pieces, one
/// after the other, leaves the same records as the piece fed whole.
pub proof fn lemma_split_piece(
    entries: Seq<(int, ToolCallView)>,
    first: ToolCallFragmentView,
    second: ToolCallFragmentView,
)
    requires
        ascending(entries),
        first.index == second.index,
        second.id is None,
        second.kind is None,
    ensures
        absorb(absorb(entries, first), second) == absorb(
            entries,
            ToolCallFragmentView {
                index: first.index,
                id: first.id,
                kind: first.kind,
                name: joined(first.name, second.name),
                arguments: joined(first.arguments, second.arguments),
            },
        ),
{
    let whole = ToolCallFragmentView {
        index: first.index,
        id: first.id,
        kind: first.kind,
        name: joined(first.name, second.name),
        arguments: joined(first.arguments, second.arguments),
    };
    let at = rank(entries, first.index);
    let middle = absorb(entries, first);
    lemma_rank_bounds(entries, first.index);
    lemma_absorb(entries, first);
    assert(middle[at].0 == first.index);
    assert forall|j: int| 0 <= j < at implies middle[j].0 < first.index by {
        assert(middle[j] == entries[j]);
    }
    lemma_rank_is_first_not_below(middle, second.index, at);
    let start = if at < entries.len() && entries[at].0 == first.index {
        entries[at].1
    } else {
        blank_call()
    };
    assert(merge_piece(merge_piece(start, first), second) == merge_piece(start, whole)) by {
        let once = merge_piece(start, first);
        let twice = merge_piece(once, second);
        let direct = merge_piece(start, whole);
        assert(twice.name =~= direct.name);
        assert(twice.arguments =~= direct.arguments);
    }
    assert(absorb(middle, second) =~= absorb(entries, whole));
}

/// The pieces are one piece cut up: they have one index, and only the first
/// may carry an identifier or a kind.
pub open spec fn cut_up(pieces: Seq<ToolCallFragmentView>) -> bool {
    &&& pieces.len() > 0
    &&& forall|i: int| 0 <= i < pieces.len() ==> (#[trigger] pieces[i]).index == pieces[0].index
    &&& forall|i: int|
        1 <= i < pieces.len() ==> (#[trigger] pieces[i]).id is None && pieces[i].kind is None
}

/// The piece that the pieces are cut from: the first piece, with the names
/// and the arguments of all of them, one after the other.
pub open spec fn whole_piece(pieces: Seq<ToolCallFragmentView>) -> ToolCallFragmentView
    decreases pieces.len(),
{
    if pieces.len() <= 1 {
        pieces[0]
    } else {
        let earlier = whole_piece(pieces.drop_last());
        ToolCallFragmentView {
            index: earlier.index,
            id: earlier.id,
            kind: earlier.kind,
            name: joined(earlier.name, pieces.last().name),
            arguments: joined(earlier.arguments, pieces.last().arguments),
        }
    }
}

/// A piece that is cut into any number of smaller pieces, fed in order,
/// leaves the same records as the piece fed whole.
pub proof fn lemma_cut_up_piece(
    entries: Seq<(int, ToolCallView)>,
    pieces: Seq<ToolCallFragmentView>,
)
    requires
        ascending(entries),
        cut_up(pieces),
    ensures
        whole_piece(pieces).index == pieces[0].index,
        absorb_all(entries, pieces) == absorb(entries, whole_piece(pieces)),
    decreases pieces.len(),
{
    if pieces.len() == 1 {
        assert(pieces.drop_last() =~= Seq::<ToolCallFragmentView>::empty());
        assert(absorb_all(entries, pieces.drop_last()) == entries);
        assert(pieces.last() == pieces[0]);
    } else {
        let earlier = pieces.drop_last();
        assert(earlier[0] == pieces[0]);
        assert forall|i: int| 0 <= i < earlier.len() implies (#[trigger] earlier[i]).index
            == earlier[0].index by {
            assert(earlier[i] == pieces[i]);
        }
        assert forall|i: int| 1 <= i < earlier.len() implies (#[trigger] earlier[i]).id is None
            && earlier[i].kind is None by {
            assert(earlier[i] == pieces[i]);
        }
        lemma_cut_up_piece(entries, earlier);
        assert(pieces.last() == pieces[pieces.len() - 1]);
        lemma_split_piece(entries, whole_piece(earlier), pieces.last());
    }
}

/// A piece that carries nothing changes no record whose index has been seen.
pub proof fn lemma_blank_piece(entries: Seq<(int, ToolCallView)>, piece: ToolCallFragmentView)
    requires
        ascending(entries),
        has_index(entries, piece.index),
        piece.is_blank(),
    ensures
        absorb(entries, piece) == entries,
{
    let at = rank(entries, piece.index);
    lemma_rank_bounds(entries, piece.index);
    let i = choose|i: int| 0 <= i < entries.len() && entries[i].0 == piece.index;
    if i < at {
        assert(entries[i].0 < piece.index);
    } else if i > at {
        assert(entries[at].0 < entries[i].0);
    }
    assert(absorb(entries, piece) =~= entries);
}

/// Merges the pieces of streamed tool calls, one record per index, and hands
/// the finished calls out in ascending order of index.
pub struct ToolCallAssembler {
    indices: Vec<i32>,
    calls: Vec<ToolCall>,
}

impl View for ToolCallAssembler {
    type V = Seq<(int, ToolCallView)>;

    /// The records, each with its index, in the order in which they are kept.
    closed spec fn view(&self) -> Seq<(int, ToolCallView)> {
        Seq::new(self.indices@.len(), |i: int| (self.indices@[i] as int, self.calls@[i]@))
    }
}

/// Merges one piece into a call.
fn merge_into(call: &mut ToolCall, piece: &ToolCallFragment)
    ensures
        final(call)@ == merge_piece(old(call)@, piece@),
{
    match &piece.id {
        Some(id) => {
            call.id = id.clone();
        },
        None => {},
    }
    match &piece.kind {
        Some(kind) => {
            call.kind = kind.clone();
        },
        None => {},
    }
    match &piece.name {
        Some(name) => {
            call.function.name.append(name.as_str());
        },
        None => {},
    }
    match &piece.arguments {
        Some(arguments) => {
            call.function.arguments.append(arguments.as_str());
        },
        None => {},
    }
}

impl ToolCallAssembler {
    /// The records are kept one per index, in ascending order of index.
    pub closed spec fn wf(&self) -> bool {
        &&& self.indices@.len() == self.calls@.len()
        &&& ascending(self@)
    }

    /// An assembler that has seen no piece.
    pub fn new() -> (assembler: ToolCallAssembler)
        ensures
            assembler.wf(),
            assembler@ == Seq::<(int, ToolCallView)>::empty(),
    {
        let assembler = ToolCallAssembler { indices: Vec::new(), calls: Vec::new() };
        assert(assembler@ =~= Seq::<(int, ToolCallView)>::empty());
        assembler
    }

    /// The number of distinct indices seen so far.
    pub fn len(&self) -> (n: usize)
        ensures
            n == self@.len(),
    {
        self.indices.len()
    }

    /// Takes in the next piece of the response.
    pub fn push(&mut self, piece: &ToolCallFragment)
        requires
            old(self).wf(),
        ensures
            final(self).wf(),
            final(self)@ == absorb(old(self)@, piece@),
    {
        let mut at: usize = 0;
        while at < self.indices.len() && self.indices[at] < piece.index
            invariant
                at <= self.indices@.len(),
                forall|j: int| 0 <= j < at ==> self.indices@[j] < piece.index,
            decreases self.indices@.len() - at,
        {
            at += 1;
        }
        proof {
            lemma_rank_is_first_not_below(self@, piece.index as int, at as int);
            lemma_absorb(self@, piece@);
        }
        if at < self.indices.len() && self.indices[at] == piece.index {
            let mut call = self.calls.remove(at);
            merge_into(&mut call, piece);
            self.calls.insert(at, call);
        } else {
            let mut call = ToolCall {
                id: String::new(),
                kind: "function".to_owned(),
                function: ToolCallFunction { name: String::new(), arguments: String::new() },
            };
            merge_into(&mut call, piece);
            self.indices.insert(at, piece.index);
            self.calls.insert(at, call);
        }
        assert(self@ =~= absorb(old(self)@, piece@));
    }

    /// The finished calls, one for each index seen, in ascending order of
    /// index.
    pub fn finalize(self) -> (calls: Vec<ToolCall>)
        requires
            self.wf(),
        ensures
            calls_view(calls@) == finished_calls(self@),
    {
        assert(calls_view(self.calls@) =~= finished_calls(self@));
        self.calls
    }
}

} // verus!
