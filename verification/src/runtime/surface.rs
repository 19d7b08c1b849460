//! Runtime-owned surfaces: identifiers, lanes, two-pass budget allocation and z-order.

use vstd::prelude::*;

use crate::runtime::component_registry::ComponentId;

verus! {

/// Stable identifier for a surface owned by a single runtime instance.
#[derive(Clone, Copy, Debug, PartialEq, Eq, Structural, Hash, PartialOrd, Ord)]
pub struct SurfaceId(u64);

impl SurfaceId {
    pub closed spec fn id(self) -> nat {
        self.0 as nat
    }

    /// The number; `from_raw` of it gives the same identifier back.
    pub fn raw(self) -> (r: u64)
        ensures
            r == self.id(),
            self == SurfaceId::with_id(r as nat),
    {
        self.0
    }

    /// The identifier with number `raw`.
    pub closed spec fn with_id(raw: nat) -> SurfaceId {
        SurfaceId(raw as u64)
    }

    pub fn from_raw(raw: u64) -> (r: Self)
        ensures
            r.id() == raw,
            r == SurfaceId::with_id(raw as nat),
    {
        SurfaceId(raw)
    }
}

/// Surface anchoring positions inside the available terminal area.
#[derive(Debug, Clone, Copy, PartialEq, Eq, Structural)]
pub enum SurfaceAnchor {
    Center,
    TopLeft,
    TopRight,
    BottomLeft,
    BottomRight,
    TopCenter,
    BottomCenter,
    LeftCenter,
    RightCenter,
}

/// Optional non-negative margins around surface layout bounds.
#[derive(Debug, Clone, Copy, PartialEq, Eq, Structural)]
pub struct SurfaceMargin {
    pub top: Option<usize>,
    pub right: Option<usize>,
    pub bottom: Option<usize>,
    pub left: Option<usize>,
}

impl SurfaceMargin {
    /// The same margin on all sides.
    pub fn uniform(value: usize) -> (r: Self)
        ensures
            r == (SurfaceMargin { top: Some(value), right: Some(value), bottom: Some(value), left: Some(value) }),
    {
        SurfaceMargin { top: Some(value), right: Some(value), bottom: Some(value), left: Some(value) }
    }
}

/// Visibility policy for showing surfaces at a given terminal size.
#[derive(Debug, Clone, Copy, PartialEq, Eq, Structural)]
pub enum SurfaceVisibility {
    Always,
    MinCols(usize),
    MinSize { cols: usize, rows: usize },
}

pub open spec fn visibility_allows(v: SurfaceVisibility, columns: nat, rows: nat) -> bool {
    match v {
        SurfaceVisibility::Always => true,
        SurfaceVisibility::MinCols(min_cols) => columns >= min_cols,
        SurfaceVisibility::MinSize { cols, rows: min_rows } => columns >= cols && rows >= min_rows,
    }
}

impl SurfaceVisibility {
    /// Whether a surface with this policy shows at the given terminal size.
    pub fn allows(&self, columns: usize, rows: usize) -> (r: bool)
        ensures
            r == visibility_allows(*self, columns as nat, rows as nat),
    {
        match *self {
            SurfaceVisibility::Always => true,
            SurfaceVisibility::MinCols(min_cols) => columns >= min_cols,
            SurfaceVisibility::MinSize { cols, rows: min_rows } => columns >= cols && rows >= min_rows,
        }
    }
}

impl Default for SurfaceVisibility {
    fn default() -> (r: Self)
        ensures
            r == SurfaceVisibility::Always,
    {
        SurfaceVisibility::Always
    }
}

/// Surface class used to determine compositing lane defaults.
#[derive(Debug, Clone, Copy, PartialEq, Eq, Structural)]
pub enum SurfaceKind {
    Modal,
    Drawer,
    Corner,
    Toast,
    AttachmentRow,
}

impl Default for SurfaceKind {
    fn default() -> (r: Self)
        ensures
            r == SurfaceKind::Modal,
    {
        SurfaceKind::Modal
    }
}

/// Compositing lane used for two-pass sizing negotiation.
#[derive(Debug, Clone, Copy, PartialEq, Eq, Structural)]
pub enum SurfaceLane {
    Top,
    Bottom,
    Floating,
}

pub open spec fn lane_of(kind: SurfaceKind) -> SurfaceLane {
    match kind {
        SurfaceKind::Toast => SurfaceLane::Top,
        SurfaceKind::AttachmentRow | SurfaceKind::Drawer => SurfaceLane::Bottom,
        SurfaceKind::Modal | SurfaceKind::Corner => SurfaceLane::Floating,
    }
}

impl SurfaceLane {
    /// Toasts stack from the top, drawers and attachment rows from the bottom, the rest float.
    pub fn from_kind(kind: SurfaceKind) -> (r: Self)
        ensures
            r == lane_of(kind),
    {
        match kind {
            SurfaceKind::Toast => SurfaceLane::Top,
            SurfaceKind::AttachmentRow | SurfaceKind::Drawer => SurfaceLane::Bottom,
            SurfaceKind::Modal | SurfaceKind::Corner => SurfaceLane::Floating,
        }
    }
}

/// Input routing policy for visible surfaces.
#[derive(Debug, Clone, Copy, PartialEq, Eq, Structural)]
pub enum SurfaceInputPolicy {
    /// Surface receives input before root content.
    Capture,
    /// Surface is visual-only; input falls through.
    Passthrough,
}

impl Default for SurfaceInputPolicy {
    fn default() -> (r: Self)
        ensures
            r == SurfaceInputPolicy::Capture,
    {
        SurfaceInputPolicy::Capture
    }
}

/// First-pass measurement of a visible surface.
#[derive(Clone, Copy, Debug, PartialEq, Eq, Structural)]
pub struct SurfaceMeasurement {
    pub component_id: ComponentId,
    pub stack_index: usize,
    pub kind: SurfaceKind,
    pub lane: SurfaceLane,
    pub preferred_width: usize,
    pub preferred_max_height: Option<usize>,
}

/// Second-pass allocation for a measured surface.
#[derive(Clone, Copy, Debug, PartialEq, Eq, Structural)]
pub struct SurfaceAllocation {
    pub component_id: ComponentId,
    pub stack_index: usize,
    pub kind: SurfaceKind,
    pub lane: SurfaceLane,
    pub reserved_top: usize,
    pub reserved_bottom: usize,
    pub allocated_width: usize,
    pub allocated_rows: usize,
}

pub open spec fn at_least_one(n: nat) -> nat {
    if n == 0 {
        1
    } else {
        n
    }
}

pub open spec fn min_nat(a: nat, b: nat) -> nat {
    if a < b {
        a
    } else {
        b
    }
}

/// Allocations for `ms` in order, with `top` and `bottom` rows already reserved: each
/// surface gets its preferred height (or all free rows) limited to the rows not yet reserved,
/// and its preferred width within `1..=cols`; top and bottom lanes reserve what they get.
pub open spec fn allocate_from(ms: Seq<SurfaceMeasurement>, cols: nat, rows: nat, top: nat, bottom: nat) -> Seq<SurfaceAllocation>
    decreases ms.len(),
{
    if ms.len() == 0 {
        Seq::empty()
    } else {
        let m = ms[0];
        let avail: nat = if top + bottom >= rows {
            0
        } else {
            (rows - top - bottom) as nat
        };
        let pref: nat = match m.preferred_max_height {
            Some(h) => h as nat,
            None => avail,
        };
        let got = min_nat(pref, avail);
        let width = if m.preferred_width < 1 {
            1
        } else if m.preferred_width > cols {
            cols
        } else {
            m.preferred_width as nat
        };
        let a = SurfaceAllocation {
            component_id: m.component_id,
            stack_index: m.stack_index,
            kind: m.kind,
            lane: m.lane,
            reserved_top: top as usize,
            reserved_bottom: bottom as usize,
            allocated_width: width as usize,
            allocated_rows: got as usize,
        };
        let (t2, b2) = match m.lane {
            SurfaceLane::Top => (min_nat(top + got, rows), bottom),
            SurfaceLane::Bottom => (top, min_nat(bottom + got, rows)),
            SurfaceLane::Floating => (top, bottom),
        };
        seq![a] + allocate_from(ms.drop_first(), cols, rows, t2, b2)
    }
}

/// Allocation for a terminal of `cols` by `rows` cells (each at least one).
pub open spec fn allocate_spec(ms: Seq<SurfaceMeasurement>, cols: nat, rows: nat) -> Seq<SurfaceAllocation> {
    allocate_from(ms, at_least_one(cols), at_least_one(rows), 0, 0)
}

/// Every allocation stays within the terminal: rows and reservations within `rows`, width
/// within `1..=cols`.
pub proof fn lemma_allocation_bounds(ms: Seq<SurfaceMeasurement>, cols: nat, rows: nat, top: nat, bottom: nat)
    requires
        cols >= 1,
        top <= rows,
        bottom <= rows,
    ensures
        allocate_from(ms, cols, rows, top, bottom).len() == ms.len(),
        forall|i: int|
            0 <= i < ms.len() ==> {
                let a = #[trigger] allocate_from(ms, cols, rows, top, bottom)[i];
                &&& a.allocated_rows as nat + a.reserved_top as nat + a.reserved_bottom as nat <= rows
                    || a.allocated_rows == 0
                &&& a.allocated_rows <= rows
                &&& 1 <= a.allocated_width <= cols
                &&& a.reserved_top <= rows
                &&& a.reserved_bottom <= rows
                &&& a.component_id == ms[i].component_id
                &&& a.stack_index == ms[i].stack_index
                &&& a.lane == ms[i].lane
            },
    decreases ms.len(),
{
    if ms.len() > 0 {
        let m = ms[0];
        let avail: nat = if top + bottom >= rows {
            0
        } else {
            (rows - top - bottom) as nat
        };
        let pref: nat = match m.preferred_max_height {
            Some(h) => h as nat,
            None => avail,
        };
        let got = min_nat(pref, avail);
        let (t2, b2) = match m.lane {
            SurfaceLane::Top => (min_nat(top + got, rows), bottom),
            SurfaceLane::Bottom => (top, min_nat(bottom + got, rows)),
            SurfaceLane::Floating => (top, bottom),
        };
        lemma_allocation_bounds(ms.drop_first(), cols, rows, t2, b2);
        let rest = allocate_from(ms.drop_first(), cols, rows, t2, b2);
        assert forall|i: int| 0 < i < ms.len() implies #[trigger] allocate_from(ms, cols, rows, top, bottom)[i] == rest[i - 1] by {}
    }
}

/// Second pass: per-surface viewport budgets from measured constraints, in stacking order.
#[verifier::rlimit(40)]
pub fn allocate_surface_budgets(
    measurements: &[SurfaceMeasurement],
    terminal_cols: usize,
    terminal_rows: usize,
) -> (r: Vec<SurfaceAllocation>)
    ensures
        r@ == allocate_spec(measurements@, terminal_cols as nat, terminal_rows as nat),
        r@.len() == measurements@.len(),
        forall|i: int| 0 <= i < r@.len() ==> {
            &&& (#[trigger] r@[i]).allocated_rows <= at_least_one(terminal_rows as nat)
            &&& 1 <= r@[i].allocated_width <= at_least_one(terminal_cols as nat)
            &&& r@[i].component_id == measurements@[i].component_id
        },
{
    let cols: usize = if terminal_cols == 0 {
        1
    } else {
        terminal_cols
    };
    let rows: usize = if terminal_rows == 0 {
        1
    } else {
        terminal_rows
    };
    let mut top: usize = 0;
    let mut bottom: usize = 0;
    let mut out: Vec<SurfaceAllocation> = Vec::new();
    let mut i: usize = 0;
    proof {
        lemma_allocation_bounds(measurements@, cols as nat, rows as nat, 0, 0);
        assert(measurements@.subrange(0, measurements@.len() as int) =~= measurements@);
    }
    while i < measurements.len()
        invariant
            i <= measurements@.len(),
            cols == at_least_one(terminal_cols as nat),
            rows == at_least_one(terminal_rows as nat),
            top <= rows,
            bottom <= rows,
            allocate_spec(measurements@, terminal_cols as nat, terminal_rows as nat) =~= out@
                + allocate_from(
                measurements@.subrange(i as int, measurements@.len() as int),
                cols as nat,
                rows as nat,
                top as nat,
                bottom as nat,
            ),
        decreases measurements@.len() - i,
    {
        let m = measurements[i];
        let ghost rest = measurements@.subrange(i as int, measurements@.len() as int);
        assert(rest[0] == m);
        assert(rest.drop_first() =~= measurements@.subrange(i + 1 as int, measurements@.len() as int));
        let avail: usize = if top >= rows || bottom >= rows - top {
            0
        } else {
            rows - top - bottom
        };
        let pref = match m.preferred_max_height {
            Some(h) => h,
            None => avail,
        };
        let got = if pref < avail {
            pref
        } else {
            avail
        };
        let width = if m.preferred_width < 1 {
            1
        } else if m.preferred_width > cols {
            cols
        } else {
            m.preferred_width
        };
        out.push(SurfaceAllocation {
            component_id: m.component_id,
            stack_index: m.stack_index,
            kind: m.kind,
            lane: m.lane,
            reserved_top: top,
            reserved_bottom: bottom,
            allocated_width: width,
            allocated_rows: got,
        });
        match m.lane {
            SurfaceLane::Top => {
                top = if got >= rows - top {
                    rows
                } else {
                    top + got
                };
            },
            SurfaceLane::Bottom => {
                bottom = if got >= rows - bottom {
                    rows
                } else {
                    bottom + got
                };
            },
            SurfaceLane::Floating => {},
        }
        i += 1;
    }
    assert(measurements@.subrange(measurements@.len() as int, measurements@.len() as int) =~= Seq::<SurfaceMeasurement>::empty());
    out
}

/// Routing-relevant options of a surface: its visibility policy and input policy.
#[derive(Clone, Copy, Debug, PartialEq, Eq, Structural)]
pub struct SurfaceRouting {
    pub visibility: SurfaceVisibility,
    pub input_policy: SurfaceInputPolicy,
}

/// A runtime-owned surface entry.
#[derive(Clone, Copy, Debug, PartialEq, Eq, Structural)]
pub struct SurfaceEntry {
    pub id: SurfaceId,
    pub component_id: ComponentId,
    pub options: Option<SurfaceRouting>,
    pub pre_focus: Option<ComponentId>,
    pub hidden: bool,
}

pub open spec fn entry_policy(e: SurfaceEntry) -> SurfaceInputPolicy {
    match e.options {
        Some(o) => o.input_policy,
        None => SurfaceInputPolicy::Capture,
    }
}

pub open spec fn entry_visible(e: SurfaceEntry, columns: nat, rows: nat) -> bool {
    !e.hidden && match e.options {
        Some(o) => visibility_allows(o.visibility, columns, rows),
        None => true,
    }
}

impl SurfaceEntry {
    /// Capture unless options say otherwise.
    pub fn input_policy(&self) -> (r: SurfaceInputPolicy)
        ensures
            r == entry_policy(*self),
    {
        match self.options {
            Some(o) => o.input_policy,
            None => SurfaceInputPolicy::Capture,
        }
    }

    /// Not hidden, and allowed by its visibility policy at this size.
    pub fn is_visible(&self, columns: usize, rows: usize) -> (r: bool)
        ensures
            r == entry_visible(*self, columns as nat, rows as nat),
    {
        if self.hidden {
            return false;
        }
        match self.options {
            Some(o) => o.visibility.allows(columns, rows),
            None => true,
        }
    }
}

/// First index in `s` of an entry with identifier `id`.
pub open spec fn index_of_spec(s: Seq<SurfaceEntry>, id: SurfaceId) -> Option<int> {
    if exists|i: int| 0 <= i < s.len() && s[i].id == id {
        Some(choose|i: int| 0 <= i < s.len() && s[i].id == id && forall|j: int| 0 <= j < i ==> s[j].id != id)
    } else {
        None
    }
}

/// The stack after moving entry `i` to the end.
pub open spec fn move_to_end(s: Seq<SurfaceEntry>, i: int) -> Seq<SurfaceEntry> {
    s.remove(i).push(s[i])
}

/// The stack after moving entry `i` to the start.
pub open spec fn move_to_start(s: Seq<SurfaceEntry>, i: int) -> Seq<SurfaceEntry> {
    seq![s[i]] + s.remove(i)
}

/// The stack after exchanging entries `i` and `j`.
pub open spec fn swap_entries(s: Seq<SurfaceEntry>, i: int, j: int) -> Seq<SurfaceEntry> {
    s.update(i, s[j]).update(j, s[i])
}

/// The ordered surface stack; later entries are above earlier ones.
pub struct SurfaceState {
    pub entries: Vec<SurfaceEntry>,
}

impl SurfaceState {
    pub fn new() -> (r: Self)
        ensures
            r.entries@ == Seq::<SurfaceEntry>::empty(),
    {
        SurfaceState { entries: Vec::new() }
    }

    /// Position of the entry with identifier `surface_id`.
    pub fn index_of(&self, surface_id: SurfaceId) -> (r: Option<usize>)
        ensures
            match r {
                Some(i) => i < self.entries@.len() && self.entries@[i as int].id == surface_id
                    && forall|j: int| 0 <= j < i ==> self.entries@[j].id != surface_id,
                None => forall|j: int| 0 <= j < self.entries@.len() ==> self.entries@[j].id != surface_id,
            },
            r matches Some(i) ==> index_of_spec(self.entries@, surface_id) == Some(i as int),
            r is None ==> index_of_spec(self.entries@, surface_id) is None,
    {
        let mut i: usize = 0;
        while i < self.entries.len()
            invariant
                i <= self.entries@.len(),
                forall|j: int| 0 <= j < i ==> self.entries@[j].id != surface_id,
            decreases self.entries@.len() - i,
        {
            if self.entries[i].id == surface_id {
                proof {
                    let k = choose|k: int| 0 <= k < self.entries@.len() && self.entries@[k].id == surface_id
                        && forall|j: int| 0 <= j < k ==> self.entries@[j].id != surface_id;
                    if k < i {
                    } else if k > i {
                        assert(self.entries@[i as int].id == surface_id);
                    }
                }
                return Some(i);
            }
            i += 1;
        }
        None
    }

    pub fn contains(&self, surface_id: SurfaceId) -> (r: bool)
        ensures
            r == exists|j: int| 0 <= j < self.entries@.len() && self.entries@[j].id == surface_id,
    {
        match self.index_of(surface_id) {
            Some(_) => true,
            None => false,
        }
    }

    /// Moves the surface to the top of the stack. `false` (no change) when it is missing or
    /// already on top.
    pub fn bring_to_front(&mut self, surface_id: SurfaceId) -> (r: bool)
        ensures
            match index_of_spec(old(self).entries@, surface_id) {
                Some(i) => if i + 1 == old(self).entries@.len() {
                    !r && final(self).entries@ == old(self).entries@
                } else {
                    r && final(self).entries@ == move_to_end(old(self).entries@, i)
                },
                None => !r && final(self).entries@ == old(self).entries@,
            },
    {
        let index = match self.index_of(surface_id) {
            Some(i) => i,
            None => return false,
        };
        assert(index < self.entries@.len());
        if index == self.entries.len() - 1 {
            return false;
        }
        let entry = self.entries.remove(index);
        self.entries.push(entry);
        true
    }

    /// Moves the surface to the bottom of the stack. `false` (no change) when it is missing or
    /// already at the bottom.
    pub fn send_to_back(&mut self, surface_id: SurfaceId) -> (r: bool)
        ensures
            match index_of_spec(old(self).entries@, surface_id) {
                Some(i) => if i == 0 {
                    !r && final(self).entries@ == old(self).entries@
                } else {
                    r && final(self).entries@ == move_to_start(old(self).entries@, i)
                },
                None => !r && final(self).entries@ == old(self).entries@,
            },
    {
        let index = match self.index_of(surface_id) {
            Some(i) => i,
            None => return false,
        };
        if index == 0 {
            return false;
        }
        let ghost before = self.entries@;
        let entry = self.entries.remove(index);
        self.entries.insert(0, entry);
        assert(self.entries@ =~= move_to_start(before, index as int));
        true
    }

    /// Swaps the surface with the one above it. `false` (no change) when it is missing or on top.
    pub fn raise(&mut self, surface_id: SurfaceId) -> (r: bool)
        ensures
            match index_of_spec(old(self).entries@, surface_id) {
                Some(i) => if i + 1 == old(self).entries@.len() {
                    !r && final(self).entries@ == old(self).entries@
                } else {
                    r && final(self).entries@ == swap_entries(old(self).entries@, i, i + 1)
                },
                None => !r && final(self).entries@ == old(self).entries@,
            },
    {
        let index = match self.index_of(surface_id) {
            Some(i) => i,
            None => return false,
        };
        assert(index < self.entries@.len());
        if index == self.entries.len() - 1 {
            return false;
        }
        let a = self.entries[index];
        let b = self.entries[index + 1];
        self.entries[index] = b;
        self.entries[index + 1] = a;
        true
    }

    /// Swaps the surface with the one below it. `false` (no change) when it is missing or at
    /// the bottom.
    pub fn lower(&mut self, surface_id: SurfaceId) -> (r: bool)
        ensures
            match index_of_spec(old(self).entries@, surface_id) {
                Some(i) => if i == 0 {
                    !r && final(self).entries@ == old(self).entries@
                } else {
                    r && final(self).entries@ == swap_entries(old(self).entries@, i, i - 1)
                },
                None => !r && final(self).entries@ == old(self).entries@,
            },
    {
        let index = match self.index_of(surface_id) {
            Some(i) => i,
            None => return false,
        };
        if index == 0 {
            return false;
        }
        let a = self.entries[index];
        let b = self.entries[index - 1];
        self.entries[index] = b;
        self.entries[index - 1] = a;
        true
    }

    /// Whether any surface is visible at this size.
    pub fn has_visible(&self, columns: usize, rows: usize) -> (r: bool)
        ensures
            r == exists|j: int| 0 <= j < self.entries@.len() && entry_visible(self.entries@[j], columns as nat, rows as nat),
    {
        let mut i: usize = 0;
        while i < self.entries.len()
            invariant
                i <= self.entries@.len(),
                forall|j: int| 0 <= j < i ==> !entry_visible(self.entries@[j], columns as nat, rows as nat),
            decreases self.entries@.len() - i,
        {
            if self.entries[i].is_visible(columns, rows) {
                return true;
            }
            i += 1;
        }
        false
    }

    /// The component of the topmost visible surface (only capturing ones when `capture_only`).
    pub fn topmost_visible_component(&self, columns: usize, rows: usize, capture_only: bool) -> (r: Option<ComponentId>)
        ensures
            r == topmost_eligible(self.entries@, self.entries@.len() as int, columns as nat, rows as nat, capture_only),
            match r {
                Some(c) => exists|k: int| 0 <= k < self.entries@.len()
                    && topmost_candidate(self.entries@, k, columns as nat, rows as nat, capture_only)
                    && self.entries@[k].component_id == c,
                None => forall|k: int| 0 <= k < self.entries@.len() ==> !eligible(self.entries@[k], columns as nat, rows as nat, capture_only),
            },
    {
        let mut i = self.entries.len();
        while i > 0
            invariant
                i <= self.entries@.len(),
                forall|k: int| i <= k < self.entries@.len() ==> !eligible(self.entries@[k], columns as nat, rows as nat, capture_only),
                topmost_eligible(self.entries@, self.entries@.len() as int, columns as nat, rows as nat, capture_only)
                    == topmost_eligible(self.entries@, i as int, columns as nat, rows as nat, capture_only),
            decreases i,
        {
            let e = self.entries[i - 1];
            if e.is_visible(columns, rows) && (!capture_only || e.input_policy() == SurfaceInputPolicy::Capture) {
                assert(topmost_candidate(self.entries@, i - 1, columns as nat, rows as nat, capture_only));
                return Some(e.component_id);
            }
            i -= 1;
        }
        None
    }

    /// Components of the visible surfaces, bottom to top.
    pub fn visible_components(&self, columns: usize, rows: usize) -> (r: Vec<ComponentId>)
        ensures
            r@ == self.entries@.filter(|e: SurfaceEntry| entry_visible(e, columns as nat, rows as nat)).map_values(|e: SurfaceEntry| e.component_id),
    {
        let mut out: Vec<ComponentId> = Vec::new();
        let mut i: usize = 0;
        let ghost f = |e: SurfaceEntry| entry_visible(e, columns as nat, rows as nat);
        assert(self.entries@.subrange(0, 0) =~= Seq::<SurfaceEntry>::empty());
        while i < self.entries.len()
            invariant
                i <= self.entries@.len(),
                f == |e: SurfaceEntry| entry_visible(e, columns as nat, rows as nat),
                out@ == self.entries@.subrange(0, i as int).filter(f).map_values(|e: SurfaceEntry| e.component_id),
            decreases self.entries@.len() - i,
        {
            let e = self.entries[i];
            proof {
                let p = self.entries@.subrange(0, i as int);
                assert(self.entries@.subrange(0, i + 1 as int) =~= p.push(e));
                p.lemma_filter_push(e, f);
            }
            if e.is_visible(columns, rows) {
                out.push(e.component_id);
                assert(out@ =~= self.entries@.subrange(0, i + 1 as int).filter(f).map_values(|e: SurfaceEntry| e.component_id));
            } else {
                assert(out@ =~= self.entries@.subrange(0, i + 1 as int).filter(f).map_values(|e: SurfaceEntry| e.component_id));
            }
            i += 1;
        }
        assert(self.entries@.subrange(0, self.entries@.len() as int) =~= self.entries@);
        out
    }
}

/// The component of the topmost eligible entry among the first `n`.
pub open spec fn topmost_eligible(s: Seq<SurfaceEntry>, n: int, columns: nat, rows: nat, capture_only: bool) -> Option<ComponentId>
    decreases n,
{
    if n <= 0 || n > s.len() {
        None
    } else if eligible(s[n - 1], columns, rows, capture_only) {
        Some(s[n - 1].component_id)
    } else {
        topmost_eligible(s, n - 1, columns, rows, capture_only)
    }
}

/// A surface that can take input or draw: visible, and capturing when `capture_only`.
pub open spec fn eligible(e: SurfaceEntry, columns: nat, rows: nat, capture_only: bool) -> bool {
    entry_visible(e, columns, rows) && (!capture_only || entry_policy(e) == SurfaceInputPolicy::Capture)
}

/// Entry `k` is eligible and no entry above it is.
pub open spec fn topmost_candidate(s: Seq<SurfaceEntry>, k: int, columns: nat, rows: nat, capture_only: bool) -> bool {
    eligible(s[k], columns, rows, capture_only) && forall|j: int| k < j < s.len() ==> !eligible(s[j], columns, rows, capture_only)
}

} // verus!
