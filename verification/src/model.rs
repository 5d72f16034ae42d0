//! The desk model: pure arithmetic, no I/O.
//!
//! A desk is one logical desktop spanning all monitors. Desk `d` on the
//! monitor with index `m` (monitors sorted by Hyprland id) owns Hyprland
//! workspace `d + 10*m`, so the last digit of a workspace id is the desk
//! identity and the tens digit is the monitor index. The mapping is total
//! and stateless: it survives monitor hotplug without remembered layouts
//! and lets per-workspace rules pin every workspace to its monitor.

use crate::text::{decimal, digit_char, digits_value, all_digits, no_ws, push_decimal, parse_bounded, unsigned_value};
use vstd::prelude::*;

verus! {

/// Number of desks; SUPER+1..0 addresses exactly this many.
pub const DESK_COUNT: u8 = 10;

/// Workspace-id stride between monitor columns; equals `DESK_COUNT` so the
/// mapping packs with no gaps or collisions.
pub const MONITOR_STRIDE: i64 = 10;

/// Upper bound on monitor slots used when inferring desks from workspace
/// ids; ids at or beyond `MONITOR_STRIDE * MAX_MONITORS` were not created
/// by hyprdesk.
pub const MAX_MONITORS: u8 = 8;

/// A validated desk identifier. Invariant: `1 <= id <= DESK_COUNT`.
/// Ordered by desk number.
#[derive(Clone, Copy, Debug, PartialEq, Eq, PartialOrd, Ord, Structural)]
pub struct DeskId(u8);

/// Behavior of [`DeskId::next`] / [`DeskId::prev`] at the ends of the desk
/// range.
#[derive(Clone, Copy, Debug, PartialEq, Eq, Structural)]
pub enum Wrap {
    /// Stop at desk 1 / desk `DESK_COUNT`.
    Clamp,
    /// Wrap around to the opposite end.
    Cycle,
}

/// Reason a string failed to parse as a [`DeskId`].
#[derive(Clone, Copy, Debug, PartialEq, Eq, Structural)]
pub struct InvalidDeskId;

// ---------------------------------------------------------------------
// Specification of the mapping, over plain integers
// ---------------------------------------------------------------------

/// Largest workspace id that belongs to the desk mapping.
pub open spec fn max_mapped_workspace() -> int {
    MONITOR_STRIDE * MAX_MONITORS
}

/// The desk number owning workspace `w`, if `w` belongs to the mapping.
pub open spec fn desk_number_of(w: int) -> Option<nat> {
    if 1 <= w <= max_mapped_workspace() {
        Some(((w - 1) % (MONITOR_STRIDE as int) + 1) as nat)
    } else {
        None
    }
}

/// The monitor slot encoded in workspace `w`, if `w` belongs to the
/// mapping.
pub open spec fn monitor_slot_of(w: int) -> Option<nat> {
    if 1 <= w <= max_mapped_workspace() {
        Some(((w - 1) / (MONITOR_STRIDE as int)) as nat)
    } else {
        None
    }
}

/// The workspace desk number `d` owns on monitor slot `m`.
pub open spec fn workspace_of(d: int, m: int) -> int {
    d + MONITOR_STRIDE * m
}

/// Workspace ids of every desk on every one of `n` monitor slots fit in
/// an `i64` (the compositor's workspace id type).
pub open spec fn monitor_count_fits(n: int) -> bool {
    MONITOR_STRIDE * n + DESK_COUNT <= i64::MAX
}

/// The desk numbers of an optional desk.
pub open spec fn opt_value(o: Option<DeskId>) -> Option<nat> {
    match o {
        Some(d) => Some(d.value()),
        None => None,
    }
}

/// The desk number after `v` in the given wrap mode.
pub open spec fn next_number(v: nat, wrap: Wrap) -> nat {
    if v >= DESK_COUNT {
        match wrap {
            Wrap::Clamp => DESK_COUNT as nat,
            Wrap::Cycle => 1,
        }
    } else {
        v + 1
    }
}

/// The desk number before `v` in the given wrap mode.
pub open spec fn prev_number(v: nat, wrap: Wrap) -> nat {
    if v <= 1 {
        match wrap {
            Wrap::Clamp => 1,
            Wrap::Cycle => DESK_COUNT as nat,
        }
    } else {
        (v - 1) as nat
    }
}

/// The desk number a text denotes: std's unsigned-integer grammar (an
/// optional `+`, then ASCII digits), restricted to `1..=DESK_COUNT`.
pub open spec fn desk_number_of_text(s: Seq<char>) -> Option<nat> {
    match unsigned_value(s) {
        Some(v) => if 1 <= v <= DESK_COUNT {
            Some(v)
        } else {
            None
        },
        None => None,
    }
}

/// The text a desk renders to.
pub open spec fn desk_text(d: DeskId) -> Seq<char> {
    decimal(d.value())
}

impl DeskId {
    /// The desk number.
    pub closed spec fn value(self) -> nat {
        self.0 as nat
    }

    /// Desk numbers lie in `1..=DESK_COUNT`.
    #[verifier::type_invariant]
    pub open spec fn wf(self) -> bool {
        1 <= self.value() <= DESK_COUNT
    }

    /// The desk with number `v`.
    pub closed spec fn from_value(v: nat) -> DeskId {
        DeskId(v as u8)
    }

    /// The desk that a text denotes, if any.
    pub open spec fn of_text(s: Seq<char>) -> Option<DeskId> {
        match desk_number_of_text(s) {
            Some(v) => Some(DeskId::from_value(v)),
            None => None,
        }
    }

    /// Desk 1.
    pub fn first() -> (r: Self)
        ensures
            r.value() == 1,
    {
        DeskId(1)
    }

    /// Desk `DESK_COUNT`.
    pub fn last() -> (r: Self)
        ensures
            r.value() == DESK_COUNT,
    {
        DeskId(DESK_COUNT)
    }

    /// The desk number, with its range.
    pub fn id(&self) -> (r: u8)
        ensures
            r == self.value(),
            1 <= r <= DESK_COUNT,
    {
        proof {
            use_type_invariant(self);
        }
        self.0
    }

    /// Accepts only `1..=DESK_COUNT`.
    pub fn new(id: u8) -> (r: Option<Self>)
        ensures
            r is Some <==> 1 <= id <= DESK_COUNT,
            r matches Some(d) ==> d.value() == id,
    {
        if 1 <= id && id <= DESK_COUNT {
            Some(DeskId(id))
        } else {
            None
        }
    }

    /// All desks in ascending order.
    pub fn all() -> (r: Vec<Self>)
        ensures
            r@.len() == DESK_COUNT,
            forall|i: int| 0 <= i < r@.len() ==> (#[trigger] r@[i]).value() == i + 1,
    {
        let mut r: Vec<Self> = Vec::new();
        let mut id: u8 = 1;
        while id <= DESK_COUNT
            invariant
                1 <= id <= DESK_COUNT + 1,
                r@.len() == id - 1,
                forall|i: int| 0 <= i < r@.len() ==> (#[trigger] r@[i]).value() == i + 1,
            decreases DESK_COUNT + 1 - id,
        {
            r.push(DeskId(id));
            id = id + 1;
        }
        r
    }

    /// The workspace this desk owns on the monitor with the given index.
    pub fn workspace_on(self, monitor_index: usize) -> (r: i64)
        requires
            self.value() + MONITOR_STRIDE * monitor_index <= i64::MAX,
        ensures
            r == workspace_of(self.value() as int, monitor_index as int),
    {
        let index = monitor_index as i64;
        (self.0 as i64) + MONITOR_STRIDE * index
    }

    /// The desk that owns the given workspace, if any. Special workspaces
    /// (negative ids) and out-of-range ids map to `None`.
    pub fn of_workspace(workspace: i64) -> (r: Option<Self>)
        ensures
            opt_value(r) == desk_number_of(workspace as int),
    {
        if monitor_index_of(workspace).is_none() {
            return None;
        }
        let v = (workspace - 1) % MONITOR_STRIDE + 1;
        Self::new(v as u8)
    }

    pub fn next(self, wrap: Wrap) -> (r: Self)
        ensures
            r.value() == next_number(self.value(), wrap),
    {
        proof {
            use_type_invariant(&self);
        }
        if self.0 == DESK_COUNT {
            match wrap {
                Wrap::Clamp => Self::last(),
                Wrap::Cycle => Self::first(),
            }
        } else {
            DeskId(self.0 + 1)
        }
    }

    pub fn prev(self, wrap: Wrap) -> (r: Self)
        ensures
            r.value() == prev_number(self.value(), wrap),
    {
        proof {
            use_type_invariant(&self);
        }
        if self.0 == 1 {
            match wrap {
                Wrap::Clamp => Self::first(),
                Wrap::Cycle => Self::last(),
            }
        } else {
            DeskId(self.0 - 1)
        }
    }

    /// The desk's decimal rendering.
    pub fn to_string(&self) -> (r: String)
        ensures
            r@ == desk_text(*self),
    {
        let mut s = String::new();
        push_decimal(&mut s, self.0 as u64);
        assert(s@ =~= decimal(self.value()));
        s
    }

    /// Parses a desk number: std's unsigned-integer grammar, then the
    /// `1..=DESK_COUNT` range check.
    pub fn from_text(s: &str) -> (r: Result<Self, InvalidDeskId>)
        ensures
            match r {
                Ok(d) => desk_number_of_text(s@) == Some(d.value()),
                Err(_) => desk_number_of_text(s@) is None,
            },
    {
        match parse_bounded(s, DESK_COUNT as u64) {
            Some(v) => match Self::new(v as u8) {
                Some(d) => Ok(d),
                None => Err(InvalidDeskId),
            },
            None => Err(InvalidDeskId),
        }
    }
}

impl std::str::FromStr for DeskId {
    type Err = InvalidDeskId;

    fn from_str(s: &str) -> (r: Result<Self, Self::Err>)
        ensures
            match r {
                Ok(d) => desk_number_of_text(s@) == Some(d.value()),
                Err(_) => desk_number_of_text(s@) is None,
            },
    {
        Self::from_text(s)
    }
}

impl InvalidDeskId {
    /// The message naming the valid range.
    pub fn to_string(&self) -> (r: String)
        ensures
            r@ == "desk must be a number in 1..=10"@,
    {
        String::from_str("desk must be a number in 1..=10")
    }
}

/// The monitor index encoded in a workspace id, if the id belongs to the
/// desk mapping at all.
pub fn monitor_index_of(workspace: i64) -> (r: Option<usize>)
    ensures
        match r {
            Some(m) => monitor_slot_of(workspace as int) == Some(m as nat),
            None => monitor_slot_of(workspace as int) is None,
        },
{
    let max = MONITOR_STRIDE * (MAX_MONITORS as i64);
    if !(1 <= workspace && workspace <= max) {
        return None;
    }
    Some(((workspace - 1) / MONITOR_STRIDE) as usize)
}

// ---------------------------------------------------------------------
// Facts and laws
// ---------------------------------------------------------------------

/// Two desks with the same number are the same desk.
pub proof fn lemma_value_injective(a: DeskId, b: DeskId)
    requires
        a.value() == b.value(),
    ensures
        a == b,
{
}

/// `from_value` yields the desk with the given number.
pub proof fn lemma_from_value(v: nat)
    requires
        v <= 255,
    ensures
        DeskId::from_value(v).value() == v,
{
}

/// Every desk and monitor slot in range names a workspace that maps back
/// to exactly that desk and slot: the mapping round-trips.
pub proof fn law_mapping_round_trips(d: nat, m: nat)
    requires
        1 <= d <= DESK_COUNT,
        m < MAX_MONITORS,
    ensures
        desk_number_of(workspace_of(d as int, m as int)) == Some(d),
        monitor_slot_of(workspace_of(d as int, m as int)) == Some(m),
{
    let w = workspace_of(d as int, m as int);
    assert(w - 1 == (d - 1) + 10 * m);
    assert((w - 1) % 10 == d - 1 && (w - 1) / 10 == m) by (nonlinear_arith)
        requires
            w - 1 == (d - 1) + 10 * m,
            0 <= d - 1 < 10,
            0 <= m,
    ;
}

/// Every workspace the mapping knows is the workspace of its own desk on
/// its own slot, so no two desk/slot pairs share a workspace.
pub proof fn law_workspace_decomposes(w: int)
    requires
        desk_number_of(w) is Some,
    ensures
        monitor_slot_of(w) is Some,
        w == workspace_of(desk_number_of(w)->0 as int, monitor_slot_of(w)->0 as int),
        1 <= desk_number_of(w)->0 <= DESK_COUNT,
        monitor_slot_of(w)->0 < MAX_MONITORS,
{
    assert(w - 1 == 10 * ((w - 1) / 10) + (w - 1) % 10) by (nonlinear_arith)
        requires
            w >= 1,
    ;
    assert((w - 1) / 10 < 8) by (nonlinear_arith)
        requires
            1 <= w <= 80,
    ;
}

/// Stepping forward then back with wrap-around returns to the start, and
/// so does stepping back then forward.
pub proof fn law_cycle_steps_invert(v: nat)
    requires
        1 <= v <= DESK_COUNT,
    ensures
        prev_number(next_number(v, Wrap::Cycle), Wrap::Cycle) == v,
        next_number(prev_number(v, Wrap::Cycle), Wrap::Cycle) == v,
{
}

/// Clamped steps stay inside `1..=DESK_COUNT`, move by exactly one away
/// from the ends, and stop at the ends.
pub proof fn law_clamp_steps(v: nat)
    requires
        1 <= v <= DESK_COUNT,
    ensures
        1 <= next_number(v, Wrap::Clamp) <= DESK_COUNT,
        1 <= prev_number(v, Wrap::Clamp) <= DESK_COUNT,
        v < DESK_COUNT ==> next_number(v, Wrap::Clamp) == v + 1,
        v == DESK_COUNT ==> next_number(v, Wrap::Clamp) == v,
        v > 1 ==> prev_number(v, Wrap::Clamp) == v - 1,
        v == 1 ==> prev_number(v, Wrap::Clamp) == v,
        v < DESK_COUNT ==> prev_number(next_number(v, Wrap::Clamp), Wrap::Clamp) == v,
{
}

/// Ten wrap-around steps forward visit every desk and return to the start.
pub proof fn law_cycle_has_period_desk_count(v: nat)
    requires
        1 <= v <= DESK_COUNT,
    ensures
        ({
            let n1 = next_number(v, Wrap::Cycle);
            let n2 = next_number(n1, Wrap::Cycle);
            let n3 = next_number(n2, Wrap::Cycle);
            let n4 = next_number(n3, Wrap::Cycle);
            let n5 = next_number(n4, Wrap::Cycle);
            let n6 = next_number(n5, Wrap::Cycle);
            let n7 = next_number(n6, Wrap::Cycle);
            let n8 = next_number(n7, Wrap::Cycle);
            let n9 = next_number(n8, Wrap::Cycle);
            next_number(n9, Wrap::Cycle) == v
        }),
{
}

/// The rendering of a desk number is the two-character `10` or a single
/// digit, and parsing it gives the number back.
pub proof fn lemma_desk_text(v: nat)
    requires
        1 <= v <= DESK_COUNT,
    ensures
        decimal(v).len() > 0,
        no_ws(decimal(v)),
        desk_number_of_text(decimal(v)) == Some(v),
        v < 10 ==> decimal(v) == seq![digit_char(v as int)],
        v == 10 ==> decimal(v) == seq!['1', '0'],
{
    reveal_with_fuel(decimal, 2);
    if v < 10 {
        let s = decimal(v);
        assert(s.drop_last() =~= Seq::<char>::empty());
        assert(digits_value(s.drop_last()) == 0);
        assert(all_digits(s));
        assert(s[0] != '+');
    } else {
        let s = decimal(v);
        assert(decimal(1) == seq!['1']);
        assert(s =~= seq!['1', '0']);
        assert(s.drop_last() =~= seq!['1']);
        assert(s.drop_last().drop_last() =~= Seq::<char>::empty());
        assert(digits_value(s.drop_last().drop_last()) == 0);
        assert(digits_value(s.drop_last()) == 1);
        assert(digits_value(s) == 10);
        assert(all_digits(s));
    }
}

/// Rendering a desk and parsing the text gives the same desk back.
pub proof fn law_desk_text_round_trips(d: DeskId)
    requires
        d.wf(),
    ensures
        DeskId::of_text(desk_text(d)) == Some(d),
{
    lemma_desk_text(d.value());
}

} // verus!
