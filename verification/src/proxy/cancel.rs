//! Cancellation flags: a stream and the tasks that work for it agree on when to stop.
//!
//! A flag is a handle that may be copied freely. Its state stands on the board that issued it,
//! so every copy sees a cancellation at once.

use std::collections::HashSet;
use vstd::prelude::*;

verus! {

broadcast use vstd::std_specs::hash::group_hash_axioms;

/// A handle to a cancellation flag. All copies share the flag's state.
#[derive(Debug, Clone, Copy, PartialEq, Eq, Structural)]
pub struct CancelFlag {
    id: u64,
}

/// The flags of one connection: which of them are not yet cancelled.
#[derive(Debug)]
pub struct CancelBoard {
    live: HashSet<u64>,
    next: u64,
}

/// Whether two states of a board agree on every flag but one.
pub open spec fn others_kept(before: CancelBoard, after: CancelBoard, except: CancelFlag) -> bool {
    &&& forall|flag: CancelFlag|
        flag != except ==> #[trigger] after.issued(flag) == before.issued(flag)
    &&& forall|flag: CancelFlag|
        flag != except ==> #[trigger] after.cancelled(flag) == before.cancelled(flag)
}

impl CancelBoard {
    /// Whether the board has handed out this flag.
    pub closed spec fn issued(&self, flag: CancelFlag) -> bool {
        flag.id < self.next
    }

    /// Whether the flag counts as cancelled. Only a flag that the board has handed out and that
    /// was not cancelled since does not.
    pub closed spec fn cancelled(&self, flag: CancelFlag) -> bool {
        !self.live@.contains(flag.id)
    }

    /// How many flags can still be handed out.
    pub closed spec fn left(&self) -> nat {
        (u64::MAX - self.next) as nat
    }

    /// Whether another flag can be handed out.
    pub open spec fn has_room_spec(&self) -> bool {
        self.left() > 0
    }

    /// Every flag that is not cancelled was handed out.
    pub closed spec fn wf(&self) -> bool {
        forall|id: u64| #[trigger] self.live@.contains(id) ==> id < self.next
    }

    /// A flag that was never handed out counts as cancelled.
    pub proof fn unissued_is_cancelled(&self, flag: CancelFlag)
        requires
            self.wf(),
            !self.issued(flag),
        ensures
            self.cancelled(flag),
    {
    }

    /// A board hands out flags as long as any is left.
    pub proof fn room_is_what_is_left(&self)
        ensures
            self.has_room_spec() <==> self.left() != 0,
    {
    }

    /// A board without flags.
    pub fn new() -> (r: Self)
        ensures
            r.wf(),
            r.left() == u64::MAX,
            forall|flag: CancelFlag| !r.issued(flag) && r.cancelled(flag),
    {
        CancelBoard { live: HashSet::new(), next: 0 }
    }

    /// Whether another flag can be handed out.
    pub fn has_room(&self) -> (r: bool)
        ensures
            r == self.has_room_spec(),
    {
        self.next < u64::MAX
    }
}

impl CancelFlag {
    /// Hands out a flag that no one holds yet and that is not cancelled. Other flags stay as
    /// they are.
    pub fn new(board: &mut CancelBoard) -> (r: Self)
        requires
            old(board).wf(),
            old(board).has_room_spec(),
        ensures
            final(board).wf(),
            !old(board).issued(r),
            final(board).issued(r),
            !final(board).cancelled(r),
            final(board).left() == old(board).left() - 1,
            others_kept(*old(board), *final(board), r),
    {
        let id: u64 = board.next;
        board.live.insert(id);
        board.next = id + 1;
        CancelFlag { id }
    }

    /// Cancels the flag, for all its copies. Other flags stay as they are.
    pub fn cancel(&self, board: &mut CancelBoard)
        requires
            old(board).wf(),
        ensures
            final(board).wf(),
            final(board).left() == old(board).left(),
            final(board).cancelled(*self),
            final(board).issued(*self) == old(board).issued(*self),
            others_kept(*old(board), *final(board), *self),
    {
        board.live.remove(&self.id);
    }

    /// Whether the flag was cancelled, through this or any other copy.
    pub fn is_cancelled(&self, board: &CancelBoard) -> (r: bool)
        ensures
            r == board.cancelled(*self),
    {
        !board.live.contains(&self.id)
    }
}

/// A flag that is cancelled is cancelled through every copy of it, and no other flag is touched.
pub proof fn copies_share_their_state(
    flag: CancelFlag,
    board: &mut CancelBoard,
    after: CancelBoard,
    other: CancelFlag,
    r: bool,
)
    requires
        call_ensures(CancelFlag::cancel, (&flag, board), ()),
        after == *final(board),
        call_ensures(CancelFlag::is_cancelled, (&other, &after), r),
    ensures
        other == flag ==> r,
        other != flag ==> r == old(board).cancelled(other),
{
}

/// A flag that is handed out is no one else's and not cancelled, and no other flag is touched.
pub proof fn flags_are_handed_out_fresh(
    board: &mut CancelBoard,
    flag: CancelFlag,
    after: CancelBoard,
    other: CancelFlag,
    r: bool,
)
    requires
        call_ensures(CancelFlag::new, (board,), flag),
        after == *final(board),
        call_ensures(CancelFlag::is_cancelled, (&other, &after), r),
    ensures
        old(board).issued(other) ==> other != flag,
        other == flag ==> !r,
        other != flag ==> r == old(board).cancelled(other),
{
}

} // verus!
