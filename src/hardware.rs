//! The live hardware snapshot and the reconciliation of stored hardware
//! identifiers against it.
use vstd::prelude::*;

verus! {

/// Register indices of one control: where its value and its enable flag live.
#[derive(Debug, Clone, Copy, PartialEq, Eq, Structural)]
pub struct InternalControlIndex {
    pub io: usize,
    pub enable: usize,
}

/// A live control (actuator) handle.
#[derive(Debug)]
pub struct ControlH {
    pub name: String,
    pub hardware_id: String,
    pub internal_index: InternalControlIndex,
}

/// A live fan (speed sensor) handle.
#[derive(Debug)]
pub struct FanH {
    pub name: String,
    pub hardware_id: String,
    pub internal_index: usize,
}

/// A live temperature sensor handle.
#[derive(Debug)]
pub struct TempH {
    pub name: String,
    pub hardware_id: String,
    pub internal_index: usize,
}

/// The hardware present on the machine, in enumeration order.
#[derive(Debug)]
pub struct Hardware {
    pub controls: Vec<ControlH>,
    pub fans: Vec<FanH>,
    pub temps: Vec<TempH>,
}

/// A live hardware handle: a stable identifier and what binding it stores.
pub trait HardwareHandle {
    type Index: Copy;

    spec fn id_view(&self) -> Seq<char>;

    spec fn index_view(&self) -> Self::Index;

    fn stable_id(&self) -> (r: &String)
        ensures
            r@ == self.id_view(),
    ;

    fn index(&self) -> (r: Self::Index)
        ensures
            r == self.index_view(),
    ;
}

impl HardwareHandle for ControlH {
    type Index = InternalControlIndex;

    open spec fn id_view(&self) -> Seq<char> {
        self.hardware_id@
    }

    open spec fn index_view(&self) -> InternalControlIndex {
        self.internal_index
    }

    fn stable_id(&self) -> (r: &String) {
        &self.hardware_id
    }

    fn index(&self) -> (r: InternalControlIndex) {
        self.internal_index
    }
}

impl HardwareHandle for FanH {
    type Index = usize;

    open spec fn id_view(&self) -> Seq<char> {
        self.hardware_id@
    }

    open spec fn index_view(&self) -> usize {
        self.internal_index
    }

    fn stable_id(&self) -> (r: &String) {
        &self.hardware_id
    }

    fn index(&self) -> (r: usize) {
        self.internal_index
    }
}

impl HardwareHandle for TempH {
    type Index = usize;

    open spec fn id_view(&self) -> Seq<char> {
        self.hardware_id@
    }

    open spec fn index_view(&self) -> usize {
        self.internal_index
    }

    fn stable_id(&self) -> (r: &String) {
        &self.hardware_id
    }

    fn index(&self) -> (r: usize) {
        self.internal_index
    }
}

/// Position of the first handle at or after `from` whose identifier is `id`,
/// or -1 when there is none.
pub open spec fn first_with_id<H: HardwareHandle>(hs: Seq<H>, id: Seq<char>, from: int) -> int
    decreases hs.len() - from,
{
    if from < 0 || from >= hs.len() {
        -1
    } else if hs[from].id_view() == id {
        from
    } else {
        first_with_id(hs, id, from + 1)
    }
}

/// Whether some handle of `hs` carries the identifier `id`.
pub open spec fn present<H: HardwareHandle>(hs: Seq<H>, id: Seq<char>) -> bool {
    exists|k: int| 0 <= k < hs.len() && hs[k].id_view() == id
}

/// The binding that reconciliation gives a payload whose stored identifier is
/// `stored`: the identifier kept (or cleared) and the bound index.
pub open spec fn reconciled<H: HardwareHandle>(hs: Seq<H>, stored: Option<Seq<char>>) -> (
    bool,
    Option<H::Index>,
) {
    match stored {
        Some(id) => {
            let p = first_with_id(hs, id, 0);
            if p >= 0 {
                (true, Some(hs[p].index_view()))
            } else {
                (false, None)
            }
        },
        None => (false, None),
    }
}

pub proof fn lemma_first_with_id<H: HardwareHandle>(hs: Seq<H>, id: Seq<char>, from: int)
    requires
        0 <= from,
    ensures
        first_with_id(hs, id, from) == -1 || (from <= first_with_id(hs, id, from) < hs.len()
            && hs[first_with_id(hs, id, from)].id_view() == id),
        first_with_id(hs, id, from) == -1 <==> !(exists|k: int|
            from <= k < hs.len() && hs[k].id_view() == id),
    decreases hs.len() - from,
{
    if from < hs.len() && hs[from].id_view() != id {
        lemma_first_with_id(hs, id, from + 1);
        if exists|k: int| from <= k < hs.len() && hs[k].id_view() == id {
            let k = choose|k: int| from <= k < hs.len() && hs[k].id_view() == id;
            assert(k != from);
            assert(from + 1 <= k < hs.len() && hs[k].id_view() == id);
        }
    }
}

/// Finds the first handle whose stable identifier is `id`.
pub fn find_handle<H: HardwareHandle>(hs: &Vec<H>, id: &String) -> (r: Option<usize>)
    ensures
        r is Some <==> first_with_id(hs@, id@, 0) >= 0,
        r matches Some(p) ==> p == first_with_id(hs@, id@, 0) && p < hs@.len(),
{
    let mut i: usize = 0;
    while i < hs.len()
        invariant
            0 <= i <= hs@.len(),
            first_with_id(hs@, id@, 0) == first_with_id(hs@, id@, i as int),
        decreases hs@.len() - i,
    {
        let h: &String = hs[i].stable_id();
        if h.eq(id) {
            return Some(i);
        }
        i = i + 1;
    }
    None
}

/// Binds a stored hardware identifier to the live snapshot `hs`.
///
/// A present identifier that the snapshot lacks is cleared together with the
/// binding; a binding without an identifier is cleared. The previous binding
/// is never kept: it is replaced by the snapshot's current one.
pub fn reconcile<H: HardwareHandle>(
    hs: &Vec<H>,
    hardware_id: &mut Option<String>,
    handle: &mut Option<H::Index>,
)
    ensures
        *final(hardware_id) == kept_id(hs@, *old(hardware_id)),
        *final(handle) == reconciled(hs@, opt_view(*old(hardware_id))).1,
        final(handle).is_some() ==> final(hardware_id).is_some(),
{
    match hardware_id {
        Some(id) => {
            match find_handle(hs, id) {
                Some(p) => {
                    *handle = Some(hs[p].index());
                },
                None => {
                    *hardware_id = None;
                    *handle = None;
                },
            }
        },
        None => {
            *handle = None;
        },
    }
}

/// The stored identifier after reconciliation: kept when the snapshot holds
/// it, cleared otherwise.
pub open spec fn kept_id<H: HardwareHandle>(hs: Seq<H>, stored: Option<String>) -> Option<String> {
    if reconciled(hs, opt_view(stored)).0 {
        stored
    } else {
        None
    }
}

/// The view of an optional string.
pub open spec fn opt_view(s: Option<String>) -> Option<Seq<char>> {
    match s {
        Some(x) => Some(x@),
        None => None,
    }
}

/// Binding an identifier that the snapshot holds keeps it and binds a handle
/// carrying it; rebinding against a later snapshot that lacks it (the device
/// was unplugged) leaves the payload unbound with the identifier cleared.
pub proof fn lemma_reconcile_round_trip<H: HardwareHandle>(
    before: Seq<H>,
    after: Seq<H>,
    id: Seq<char>,
)
    requires
        present(before, id),
        !present(after, id),
    ensures
        reconciled(before, Some(id)).0,
        reconciled(before, Some(id)).1 matches Some(x) && exists|k: int|
            0 <= k < before.len() && before[k].id_view() == id && before[k].index_view() == x,
        reconciled(after, Some(id)) == (false, Option::<H::Index>::None),
{
    lemma_first_with_id(before, id, 0);
    lemma_first_with_id(after, id, 0);
}

} // verus!
