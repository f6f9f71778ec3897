//! What the window server tells about a window, and which windows are worth a
//! border.

use crate::geometry::{rect, CGRect};
use crate::sequence::{lemma_filter_members, lemma_filter_take};
use vstd::prelude::*;

verus! {

/// Attribute of a window with contents of its own.
pub const WINDOW_ATTRIBUTE_REAL: u64 = 0x2;

/// Tag of an ordinary application window.
pub const WINDOW_TAG_DOCUMENT: u64 = 0x1;

/// Tag of a window that floats over others.
pub const WINDOW_TAG_FLOATING: u64 = 0x2;

/// Tag of a window that hangs on another one.
pub const WINDOW_TAG_ATTACHED: u64 = 0x80;

/// Tag of a window that window cycling leaves out.
pub const WINDOW_TAG_IGNORES_CYCLE: u64 = 0x4_0000;

/// Tag of a modal window.
pub const WINDOW_TAG_MODAL: u64 = 0x8000_0000;

/// Tag of a window with a surface of its own.
pub const WINDOW_TAG_REAL_SURFACE: u64 = 0x400_0000_0000_0000;

#[derive(Clone, Copy, Debug, PartialEq, Eq, Structural)]
pub struct WindowMetadata {
    pub parent_wid: u32,
    pub tags: u64,
    pub attributes: u64,
}

/// An application's own window, neither a child nor an accessory of another.
pub open spec fn suitable(m: WindowMetadata) -> bool {
    let has_surface = m.attributes & WINDOW_ATTRIBUTE_REAL != 0 || m.tags & WINDOW_TAG_REAL_SURFACE != 0;
    let document = m.tags & WINDOW_TAG_DOCUMENT != 0;
    let floating_dialog = m.tags & WINDOW_TAG_FLOATING != 0 && m.tags & WINDOW_TAG_MODAL != 0;
    &&& m.parent_wid == 0
    &&& has_surface
    &&& m.tags & WINDOW_TAG_ATTACHED == 0
    &&& m.tags & WINDOW_TAG_IGNORES_CYCLE == 0
    &&& document || floating_dialog
}

/// A window that the server knows, and that is suitable.
pub open spec fn known_suitable(m: Option<WindowMetadata>) -> bool {
    m is Some && suitable(m->0)
}

pub fn is_suitable_window_metadata(metadata: WindowMetadata) -> (r: bool)
    ensures
        r == suitable(metadata),
{
    metadata.parent_wid == 0 && ((metadata.attributes & WINDOW_ATTRIBUTE_REAL) != 0 || (
    metadata.tags & WINDOW_TAG_REAL_SURFACE) != 0) && (metadata.tags & WINDOW_TAG_ATTACHED) == 0 && (
    metadata.tags & WINDOW_TAG_IGNORES_CYCLE) == 0 && ((metadata.tags & WINDOW_TAG_DOCUMENT) != 0
        || ((metadata.tags & WINDOW_TAG_FLOATING) != 0 && (metadata.tags & WINDOW_TAG_MODAL) != 0))
}

/// `metadata` is what the window server answered; `None` when it has no such window.
pub fn is_suitable_window(metadata: Option<WindowMetadata>) -> (r: bool)
    ensures
        r == known_suitable(metadata),
{
    match metadata {
        Some(metadata) => is_suitable_window_metadata(metadata),
        None => false,
    }
}

/// One row of the list of on-screen windows. `wid`, `pid` and `layer` are `None`
/// where the row does not hold them; `metadata` and `bounds` are what the server
/// answers when asked for that window.
#[derive(Clone, Copy, Debug, PartialEq, Eq, Structural)]
pub struct WindowEntry {
    pub wid: Option<u32>,
    pub pid: Option<i32>,
    pub layer: Option<i32>,
    pub metadata: Option<WindowMetadata>,
    pub bounds: Option<CGRect>,
}

impl WindowEntry {
    /// The window's id; 0, which is no window's id, where the row holds none.
    pub open spec fn wid_or_none(self) -> u32 {
        match self.wid {
            Some(w) => w,
            None => 0,
        }
    }

    /// The owner's process id; 0 where the row holds none.
    pub open spec fn pid_or_none(self) -> i32 {
        match self.pid {
            Some(p) => p,
            None => 0,
        }
    }

    /// On the layer of ordinary windows.
    pub open spec fn ordinary(self) -> bool {
        self.layer == Some(0i32)
    }

    pub fn window_id(&self) -> (r: u32)
        ensures
            r == self.wid_or_none(),
    {
        match self.wid {
            Some(w) => w,
            None => 0,
        }
    }

    pub fn owner_pid(&self) -> (r: i32)
        ensures
            r == self.pid_or_none(),
    {
        match self.pid {
            Some(p) => p,
            None => 0,
        }
    }

    pub fn is_ordinary(&self) -> (r: bool)
        ensures
            r == self.ordinary(),
    {
        match self.layer {
            Some(layer) => layer == 0,
            None => false,
        }
    }
}

/// An ordinary and suitable window of another process.
pub open spec fn borderable(e: WindowEntry, own_pid: i32) -> bool {
    &&& e.wid_or_none() != 0
    &&& e.pid_or_none() != own_pid
    &&& known_suitable(e.metadata)
    &&& e.ordinary()
}

pub fn is_borderable(e: &WindowEntry, own_pid: i32) -> (r: bool)
    ensures
        r == borderable(*e, own_pid),
{
    e.window_id() != 0 && e.owner_pid() != own_pid && is_suitable_window(e.metadata)
        && e.is_ordinary()
}

/// The borderable windows of a list, in the list's order.
pub open spec fn discovered(own_pid: i32, entries: Seq<WindowEntry>) -> Seq<u32> {
    entries.filter(|e: WindowEntry| borderable(e, own_pid)).map_values(
        |e: WindowEntry| e.wid_or_none(),
    )
}

pub fn discover_windows(own_pid: i32, entries: &Vec<WindowEntry>) -> (wids: Vec<u32>)
    ensures
        wids@ == discovered(own_pid, entries@),
{
    let mut wids: Vec<u32> = Vec::new();
    let ghost keep = |e: WindowEntry| borderable(e, own_pid);
    let ghost id = |e: WindowEntry| e.wid_or_none();
    assert(wids@ =~= entries@.take(0).filter(keep).map_values(id));
    for i in 0..entries.len()
        invariant
            keep == (|e: WindowEntry| borderable(e, own_pid)),
            id == (|e: WindowEntry| e.wid_or_none()),
            wids@ == entries@.take(i as int).filter(keep).map_values(id),
    {
        let e = &entries[i];
        proof {
            lemma_filter_take(entries@, i as int, keep);
        }
        if is_borderable(e, own_pid) {
            wids.push(e.window_id());
        }
        assert(wids@ =~= entries@.take(i + 1).filter(keep).map_values(id));
    }
    assert(entries@.take(entries@.len() as int) =~= entries@);
    wids
}

/// A row of the listing that the user can ask for.
#[derive(Clone, Copy, Debug, PartialEq, Eq, Structural)]
pub struct ListedWindow {
    pub wid: u32,
    pub bounds: CGRect,
}

/// The row's window and its bounds, all zero where the server gives none.
pub open spec fn listed(e: WindowEntry) -> ListedWindow {
    ListedWindow {
        wid: e.wid_or_none(),
        bounds: match e.bounds {
            Some(b) => b,
            None => rect(0, 0, 0, 0),
        },
    }
}

/// The ordinary windows of a list, whoever owns them.
pub open spec fn listing(entries: Seq<WindowEntry>) -> Seq<ListedWindow> {
    entries.filter(|e: WindowEntry| e.ordinary() && e.wid_or_none() != 0).map_values(
        |e: WindowEntry| listed(e),
    )
}

pub fn list_windows(entries: &Vec<WindowEntry>) -> (rows: Vec<ListedWindow>)
    ensures
        rows@ == listing(entries@),
{
    let mut rows: Vec<ListedWindow> = Vec::new();
    let ghost keep = |e: WindowEntry| e.ordinary() && e.wid_or_none() != 0;
    let ghost row = |e: WindowEntry| listed(e);
    assert(rows@ =~= entries@.take(0).filter(keep).map_values(row));
    for i in 0..entries.len()
        invariant
            keep == (|e: WindowEntry| e.ordinary() && e.wid_or_none() != 0),
            row == (|e: WindowEntry| listed(e)),
            rows@ == entries@.take(i as int).filter(keep).map_values(row),
    {
        let e = &entries[i];
        proof {
            lemma_filter_take(entries@, i as int, keep);
        }
        if e.is_ordinary() && e.window_id() != 0 {
            let bounds = match e.bounds {
                Some(b) => b,
                None => CGRect::default(),
            };
            rows.push(ListedWindow { wid: e.window_id(), bounds });
        }
        assert(rows@ =~= entries@.take(i + 1).filter(keep).map_values(row));
    }
    assert(entries@.take(entries@.len() as int) =~= entries@);
    rows
}

/// What the public window list says of one window.
#[derive(Clone, Copy, Debug, PartialEq, Eq, Structural)]
pub struct ProbedWindow {
    pub wid: Option<u32>,
    pub sharing: Option<i32>,
    pub layer: Option<i32>,
    pub on_screen_present: bool,
}

/// How a probe reports a window: what the row does not hold has a value that no
/// window has.
#[derive(Clone, Copy, Debug, PartialEq, Eq, Structural)]
pub struct ProbeReport {
    pub index: usize,
    pub sharing: i32,
    pub layer: i32,
    pub on_screen_present: bool,
}

impl ProbedWindow {
    pub open spec fn is_for(self, target_wid: u32) -> bool {
        (match self.wid {
            Some(w) => w,
            None => 0,
        }) == target_wid
    }

    pub open spec fn report(self, index: usize) -> ProbeReport {
        ProbeReport {
            index,
            sharing: match self.sharing {
                Some(s) => s,
                None => -1i32,
            },
            layer: match self.layer {
                Some(l) => l,
                None => i32::MIN,
            },
            on_screen_present: self.on_screen_present,
        }
    }
}

/// Reports the first row for `target_wid`; `None` if the list has none.
pub fn probe_cg_window_info(entries: &Vec<ProbedWindow>, target_wid: u32) -> (r: Option<ProbeReport>)
    ensures
        match r {
            Some(report) => {
                &&& report.index < entries@.len()
                &&& entries@[report.index as int].is_for(target_wid)
                &&& forall|j: int|
                    0 <= j < report.index ==> !(#[trigger] entries@[j]).is_for(target_wid)
                &&& report == entries@[report.index as int].report(report.index)
            },
            None => forall|j: int|
                0 <= j < entries@.len() ==> !(#[trigger] entries@[j]).is_for(target_wid),
        },
{
    for i in 0..entries.len()
        invariant
            forall|j: int| 0 <= j < i ==> !(#[trigger] entries@[j]).is_for(target_wid),
    {
        let e = &entries[i];
        let wid = match e.wid {
            Some(w) => w,
            None => 0u32,
        };
        if wid == target_wid {
            return Some(
                ProbeReport {
                    index: i,
                    sharing: match e.sharing {
                        Some(s) => s,
                        None => -1,
                    },
                    layer: match e.layer {
                        Some(l) => l,
                        None => i32::MIN,
                    },
                    on_screen_present: e.on_screen_present,
                },
            );
        }
    }
    None
}

/// A window that hangs on another one, or that has a parent, never gets a border.
pub proof fn law_accessories_are_not_suitable(m: WindowMetadata)
    ensures
        m.parent_wid != 0 ==> !suitable(m),
        m.tags & WINDOW_TAG_ATTACHED != 0 ==> !suitable(m),
        m.tags & WINDOW_TAG_IGNORES_CYCLE != 0 ==> !suitable(m),
{
}

/// Every discovered window is a suitable one of another process, and every such
/// window in the list is discovered.
pub proof fn law_discovered_windows(own_pid: i32, entries: Seq<WindowEntry>)
    ensures
        forall|w: u32| #[trigger]
            discovered(own_pid, entries).contains(w) <==> exists|i: int|
                0 <= i < entries.len() && borderable(#[trigger] entries[i], own_pid)
                    && entries[i].wid_or_none() == w,
        !discovered(own_pid, entries).contains(0u32),
{
    let keep = |e: WindowEntry| borderable(e, own_pid);
    let kept = entries.filter(keep);
    lemma_filter_members(entries, keep);
    let wids = discovered(own_pid, entries);
    assert forall|w: u32| #[trigger] wids.contains(w) <==> exists|i: int|
        0 <= i < entries.len() && borderable(#[trigger] entries[i], own_pid)
            && entries[i].wid_or_none() == w by {
        if wids.contains(w) {
            let k = wids.index_of(w);
            assert(kept.contains(kept[k]));
            let i = entries.index_of(kept[k]);
            assert(entries[i] == kept[k]);
        }
        if exists|i: int|
            0 <= i < entries.len() && borderable(#[trigger] entries[i], own_pid)
                && entries[i].wid_or_none() == w {
            let i = choose|i: int|
                0 <= i < entries.len() && borderable(#[trigger] entries[i], own_pid)
                    && entries[i].wid_or_none() == w;
            assert(kept.contains(entries[i]));
            let k = kept.index_of(entries[i]);
            assert(wids[k] == w);
        }
    }
}

/// The bit at that place, counted from the least one, is set.
pub open spec fn bit(v: u64, place: u64) -> bool
    recommends
        place < 64,
{
    (v >> place) % 2 == 1
}

/// Which bits make a window suitable: it has no parent, contents or a surface of its own
/// (attribute bit 1 or tag bit 58), does not hang on another window (tag bit 7), takes
/// part in window cycling (tag bit 18), and is a document (tag bit 0) or both floating
/// and modal (tag bits 1 and 31).
pub proof fn law_suitable_windows_by_their_bits(m: WindowMetadata)
    ensures
        suitable(m) <==> {
            &&& m.parent_wid == 0
            &&& bit(m.attributes, 1) || bit(m.tags, 58)
            &&& !bit(m.tags, 7)
            &&& !bit(m.tags, 18)
            &&& bit(m.tags, 0) || (bit(m.tags, 1) && bit(m.tags, 31))
        },
        known_suitable(Some(m)) == suitable(m),
        !known_suitable(None),
{
    let (t, a) = (m.tags, m.attributes);
    assert((a & 0x2u64 != 0) == ((a >> 1u64) % 2 == 1)) by (bit_vector);
    assert((t & 0x400_0000_0000_0000u64 != 0) == ((t >> 58u64) % 2 == 1)) by (bit_vector);
    assert((t & 0x80u64 != 0) == ((t >> 7u64) % 2 == 1)) by (bit_vector);
    assert((t & 0x4_0000u64 != 0) == ((t >> 18u64) % 2 == 1)) by (bit_vector);
    assert((t & 0x1u64 != 0) == ((t >> 0u64) % 2 == 1)) by (bit_vector);
    assert((t & 0x2u64 != 0) == ((t >> 1u64) % 2 == 1)) by (bit_vector);
    assert((t & 0x8000_0000u64 != 0) == ((t >> 31u64) % 2 == 1)) by (bit_vector);
}

/// A row is worth a border exactly if it holds a window id, is of the ordinary layer and
/// of another process, and its window is suitable. A row without a process id counts as
/// one of process 0.
pub proof fn law_borderable_rows(e: WindowEntry, own_pid: i32)
    ensures
        borderable(e, own_pid) <==> {
            &&& e.wid is Some && e.wid->0 != 0
            &&& e.layer is Some && e.layer->0 == 0
            &&& e.metadata is Some && suitable(e.metadata->0)
            &&& e.pid is Some ==> e.pid->0 != own_pid
            &&& e.pid is None ==> own_pid != 0
        },
{
}

/// What is discovered in a list is what is discovered in its first part, and then what
/// is discovered in the rest. The same holds of the listing.
pub proof fn law_lists_are_read_row_by_row(
    own_pid: i32,
    first: Seq<WindowEntry>,
    second: Seq<WindowEntry>,
)
    ensures
        discovered(own_pid, first + second) == discovered(own_pid, first) + discovered(
            own_pid,
            second,
        ),
        listing(first + second) == listing(first) + listing(second),
{
    Seq::filter_distributes_over_add(
        first,
        second,
        |e: WindowEntry| borderable(e, own_pid),
    );
    Seq::filter_distributes_over_add(
        first,
        second,
        |e: WindowEntry| e.ordinary() && e.wid_or_none() != 0,
    );
    assert(discovered(own_pid, first + second) =~= discovered(own_pid, first) + discovered(
        own_pid,
        second,
    ));
    assert(listing(first + second) =~= listing(first) + listing(second));
}

/// A row that is worth a border is discovered under its id, and any other is not. The
/// listing has a row for every window of the ordinary layer, whoever owns it, with its
/// bounds, or zeros if the server does not know them.
pub proof fn law_one_row(own_pid: i32, e: WindowEntry)
    ensures
        borderable(e, own_pid) ==> discovered(own_pid, seq![e]) == seq![e.wid->0],
        !borderable(e, own_pid) ==> discovered(own_pid, seq![e]).len() == 0,
        e.wid is Some && e.wid->0 != 0 && e.layer is Some && e.layer->0 == 0 ==> {
            let rows = listing(seq![e]);
            &&& rows.len() == 1
            &&& rows[0].wid == e.wid->0
            &&& e.bounds is Some ==> rows[0].bounds == e.bounds->0
            &&& e.bounds is None ==> rows[0].bounds.origin.x == 0 && rows[0].bounds.origin.y == 0
                && rows[0].bounds.size.width == 0 && rows[0].bounds.size.height == 0
        },
        e.wid is None || e.wid->0 == 0 || e.layer is None || e.layer->0 != 0 ==> listing(
            seq![e],
        ).len() == 0,
{
    reveal(Seq::filter);
    let one = seq![e];
    assert(one.drop_last() =~= seq![]);
    assert(one.last() == e);
    let keep = |e: WindowEntry| borderable(e, own_pid);
    let keep_listed = |e: WindowEntry| e.ordinary() && e.wid_or_none() != 0;
    assert(one.drop_last().filter(keep) =~= seq![]);
    assert(one.drop_last().filter(keep_listed) =~= seq![]);
    if keep(e) {
        assert(one.filter(keep) =~= seq![e]);
        assert(discovered(own_pid, one) =~= seq![e.wid->0]);
    } else {
        assert(one.filter(keep) =~= seq![]);
    }
    if keep_listed(e) {
        assert(one.filter(keep_listed) =~= seq![e]);
        assert(listing(one)[0] == listed(e));
    } else {
        assert(one.filter(keep_listed) =~= seq![]);
    }
}

/// A probe's report says what the row holds, and has values that no window has for what
/// it does not: -1 for the sharing state and the least number for the layer.
pub proof fn law_probe_reports(p: ProbedWindow, index: usize, wid: u32)
    ensures
        p.report(index).index == index,
        p.report(index).sharing == (if p.sharing is Some { p.sharing->0 } else { -1i32 }),
        p.report(index).layer == (if p.layer is Some { p.layer->0 } else { -0x8000_0000i32 }),
        p.report(index).on_screen_present == p.on_screen_present,
        wid != 0 ==> (p.is_for(wid) <==> p.wid == Some(wid)),
        p.is_for(0) <==> p.wid is None || p.wid == Some(0u32),
{
}

}
