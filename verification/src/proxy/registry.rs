//! The attachments that are kept, by the address of their session. Every session
//! stays attached: there is no cap, and nothing is evicted.
use crate::proxy::run::{
    cmd_views, event_views, pump_events, pumped, resized, Attachment, AttachmentView, PtyCmd,
    PtyCmdView, PtyEvent,
};
use crate::proxy::screen::{is_size, vt_fresh, vt_size, Grid};
use crate::table::{keyed, Table};
use crate::text;
use vstd::prelude::*;

verus! {

/// What [`AttachRegistry::ensure`] found.
#[derive(Clone, Copy, Debug, PartialEq, Eq, Structural)]
pub enum Ensured {
    /// The address is attached under this id.
    Attached(u64),
    /// A child is to be started for the address under this id.
    Spawn(u64),
}

/// The live attachments, by `source/session`.
pub struct AttachRegistry {
    attached: Table<Attachment>,
    next_id: u64,
}

/// The attachments of a registry as a map.
pub open spec fn attachment_views(m: Map<Seq<char>, Attachment>) -> Map<
    Seq<char>,
    AttachmentView,
> {
    m.map_values(|a: Attachment| a@)
}

/// The key under which the attachment with this id stands, if there is one. Where
/// several have it, the one that came first counts.
pub open spec fn key_of(
    order: Seq<Seq<char>>,
    m: Map<Seq<char>, AttachmentView>,
    id: u64,
) -> Option<Seq<char>>
    decreases order.len(),
{
    if order.len() == 0 {
        None
    } else if m[order[0]].id == id {
        Some(order[0])
    } else {
        key_of(order.drop_first(), m, id)
    }
}

impl View for AttachRegistry {
    type V = Map<Seq<char>, AttachmentView>;

    closed spec fn view(&self) -> Map<Seq<char>, AttachmentView> {
        attachment_views(self.attached@)
    }
}

impl AttachRegistry {
    /// The id that is issued next.
    pub closed spec fn next_id(&self) -> u64 {
        self.next_id
    }

    /// The addresses, in the order in which they were attached.
    pub closed spec fn order(&self) -> Seq<Seq<char>> {
        self.attached.order()
    }

    /// No attachment; the first id is 1.
    pub fn new() -> (r: AttachRegistry)
        ensures
            r@ == Map::<Seq<char>, AttachmentView>::empty(),
            r.order() == Seq::<Seq<char>>::empty(),
            r.next_id() == 1,
    {
        let r = AttachRegistry { attached: Table::new(), next_id: 1 };
        proof {
            assert(r@ =~= Map::<Seq<char>, AttachmentView>::empty());
        }
        r
    }

    /// Whether `addr` is attached.
    pub fn contains(&self, addr: &str) -> (r: bool)
        ensures
            r == self@.dom().contains(addr@),
    {
        self.attached.contains_key(addr)
    }

    /// How many attachments are kept.
    pub fn len(&self) -> (n: usize)
        ensures
            n == self.order().len(),
            keyed(self.order(), self@),
    {
        self.attached.len()
    }

    pub fn is_empty(&self) -> (r: bool)
        ensures
            r == (self.order().len() == 0),
    {
        self.attached.len() == 0
    }

    pub fn get(&self, addr: &str) -> (r: Option<&Attachment>)
        ensures
            match r {
                Some(a) => self@.dom().contains(addr@) && a@ == self@[addr@],
                None => !self@.dom().contains(addr@),
            },
    {
        self.attached.get(addr)
    }

    /// The grid of an attachment.
    pub fn grid(&self, addr: &str) -> (r: Option<&Grid>)
        ensures
            match r {
                Some(g) => self@.dom().contains(addr@) && g.terminal() == self@[addr@].terminal
                    && g.held() == self@[addr@].held,
                None => !self@.dom().contains(addr@),
            },
    {
        match self.attached.get(addr) {
            Some(a) => Some(&a.grid),
            None => None,
        }
    }

    /// Wipes the grid of `addr`, so that nothing of what it showed stays behind what
    /// is painted next. Nothing happens where it is not attached.
    pub fn clear_grid(&mut self, addr: &str)
        ensures
            final(self)@ == if old(self)@.dom().contains(addr@) {
                old(self)@.insert(
                    addr@,
                    AttachmentView {
                        terminal: vt_fresh(
                            vt_size(old(self)@[addr@].terminal).0,
                            vt_size(old(self)@[addr@].terminal).1,
                        ),
                        held: Seq::empty(),
                        ..old(self)@[addr@]
                    },
                )
            } else {
                old(self)@
            },
            final(self).order() == old(self).order(),
            final(self).next_id() == old(self).next_id(),
    {
        let ghost before = self.attached@;
        if let Some(a) = self.attached.get_mut(addr) {
            a.grid.clear();
        }
        proof {
            if before.dom().contains(addr@) {
                assert(self.attached@ =~= before.insert(addr@, self.attached@[addr@]));
                assert(self@ =~= old(self)@.insert(addr@, self@[addr@]));
            }
        }
    }

    /// Whether the attach of `addr` is still being established; so it is where
    /// nothing is attached.
    pub fn connecting(&self, addr: &str) -> (r: bool)
        ensures
            r == (self@.dom().contains(addr@) ==> self@[addr@].connecting),
    {
        match self.attached.get(addr) {
            Some(a) => a.connecting,
            None => true,
        }
    }

    /// Queues input for the child of `addr`. Nothing happens where it is not
    /// attached.
    pub fn input(&mut self, addr: &str, bytes: Vec<u8>)
        ensures
            final(self)@ == if old(self)@.dom().contains(addr@) {
                old(self)@.insert(
                    addr@,
                    AttachmentView {
                        outbox: old(self)@[addr@].outbox.push(PtyCmdView::Input(bytes@)),
                        ..old(self)@[addr@]
                    },
                )
            } else {
                old(self)@
            },
            final(self).order() == old(self).order(),
            final(self).next_id() == old(self).next_id(),
    {
        let ghost before = self.attached@;
        if let Some(a) = self.attached.get_mut(addr) {
            a.input(bytes);
        }
        proof {
            if before.dom().contains(addr@) {
                assert(self.attached@ =~= before.insert(addr@, self.attached@[addr@]));
                assert(self@ =~= old(self)@.insert(addr@, self@[addr@]));
            }
        }
    }

    /// The commands that wait for the child of the attachment with this id; they wait no
    /// longer. There are none where there is no such attachment.
    pub fn take_commands(&mut self, id: u64) -> (cmds: Vec<PtyCmd>)
        ensures
            match key_of(old(self).order(), old(self)@, id) {
                Some(k) => final(self)@ == old(self)@.insert(
                    k,
                    AttachmentView { outbox: Seq::empty(), ..old(self)@[k] },
                ) && cmd_views(cmds@) == old(self)@[k].outbox,
                None => final(self)@ == old(self)@ && cmds@.len() == 0,
            },
            final(self).order() == old(self).order(),
            final(self).next_id() == old(self).next_id(),
    {
        match self.key_with(id) {
            Some(k) => {
                let ghost before = self.attached@;
                match self.attached.get_mut(k.as_str()) {
                    Some(a) => {
                        let cmds = a.take_commands();
                        proof {
                            assert(self.attached@ =~= before.insert(k@, self.attached@[k@]));
                            assert(self@ =~= old(self)@.insert(k@, self@[k@]));
                        }
                        cmds
                    },
                    None => Vec::new(),
                }
            },
            None => Vec::new(),
        }
    }

    /// Hands a chunk of output to the attachment with this id, and says what to
    /// report of it. Nothing happens where there is none.
    pub fn output(&mut self, id: u64, chunk: &[u8]) -> (events: Vec<PtyEvent>)
        ensures
            match key_of(old(self).order(), old(self)@, id) {
                Some(k) => final(self)@ == old(self)@.insert(k, pumped(old(self)@[k], chunk@))
                    && event_views(events@) == pump_events(old(self)@[k], chunk@),
                None => final(self)@ == old(self)@ && events@.len() == 0,
            },
            final(self).order() == old(self).order(),
            final(self).next_id() == old(self).next_id(),
    {
        match self.key_with(id) {
            Some(k) => {
                let ghost before = self.attached@;
                match self.attached.get_mut(k.as_str()) {
                    Some(a) => {
                        let events = a.output(chunk);
                        proof {
                            assert(self.attached@ =~= before.insert(k@, self.attached@[k@]));
                            assert(self@ =~= old(self)@.insert(k@, self@[k@]));
                        }
                        events
                    },
                    None => Vec::new(),
                }
            },
            None => Vec::new(),
        }
    }

    /// Notes a redraw for every attachment.
    pub fn clear_all_pending(&mut self)
        ensures
            final(self)@ == old(self)@.map_values(
                |a: AttachmentView| AttachmentView { pending: false, ..a },
            ),
            final(self).order() == old(self).order(),
            final(self).next_id() == old(self).next_id(),
    {
        let ghost f = |a: AttachmentView| AttachmentView { pending: false, ..a };
        let n: usize = self.attached.len();
        let mut i: usize = 0;
        while i < n
            invariant
                n == old(self).order().len(),
                i <= n,
                self.order() == old(self).order(),
                self.next_id() == old(self).next_id(),
                self@.dom() =~= old(self)@.dom(),
                keyed(old(self).order(), old(self)@),
                forall|j: int|
                    0 <= j < n ==> #[trigger] self@[self.order()[j]] == if j < i {
                        f(old(self)@[self.order()[j]])
                    } else {
                        old(self)@[self.order()[j]]
                    },
                f == (|a: AttachmentView| AttachmentView { pending: false, ..a }),
            decreases n - i,
        {
            let k = self.attached.key_at(i).to_owned();
            let ghost before = self.attached@;
            let ghost was = self@;
            if let Some(a) = self.attached.get_mut(k.as_str()) {
                a.clear_pending();
            }
            proof {
                assert(self.attached@ =~= before.insert(k@, self.attached@[k@]));
                assert(self@ =~= was.insert(k@, f(was[k@])));
                assert forall|j: int| 0 <= j < n implies #[trigger] self@[self.order()[j]] == if j
                    < i + 1 {
                    f(old(self)@[self.order()[j]])
                } else {
                    old(self)@[self.order()[j]]
                } by {
                    assert(was[self.order()[j]] == was[self.order()[j]]);
                    if j != i {
                        assert(self.order()[j] != self.order()[i as int]);
                    }
                }
            }
            i += 1;
        }
        proof {
            assert(self@ =~= old(self)@.map_values(f)) by {
                assert forall|k: Seq<char>| #[trigger] self@.dom().contains(k) implies self@[k] == f(
                    old(self)@[k],
                ) by {
                    let j = choose|j: int|
                        0 <= j < n && #[trigger] old(self).order()[j] == k;
                    assert(self@[self.order()[j]] == f(old(self)@[self.order()[j]]));
                }
            }
        }
    }

    /// The attached addresses.
    pub fn addresses(&self) -> (out: Vec<String>)
        ensures
            text::texts(out@) == self.order(),
    {
        let mut out: Vec<String> = Vec::new();
        let n: usize = self.attached.len();
        let mut i: usize = 0;
        proof {
            assert(text::texts(out@) =~= self.order().take(0));
        }
        while i < n
            invariant
                n == self.order().len(),
                i <= n,
                text::texts(out@) == self.order().take(i as int),
            decreases n - i,
        {
            let ghost before = out@;
            out.push(self.attached.key_at(i).to_owned());
            proof {
                text::texts_push(before, out@.last());
                assert(self.order().take(i + 1) =~= self.order().take(i as int).push(
                    self.order()[i as int],
                ));
            }
            i += 1;
        }
        proof {
            assert(self.order().take(n as int) =~= self.order());
        }
        out
    }

    /// Issues an id.
    pub fn alloc_id(&mut self) -> (id: u64)
        requires
            old(self).next_id() < u64::MAX,
        ensures
            id == old(self).next_id(),
            final(self).next_id() == id + 1,
            final(self)@ == old(self)@,
            final(self).order() == old(self).order(),
    {
        let id: u64 = self.next_id;
        self.next_id = id + 1;
        id
    }

    /// Keeps an attachment under `addr`, in place of the one that stood there.
    pub fn insert(&mut self, addr: &str, att: Attachment) -> (was: Option<Attachment>)
        ensures
            final(self)@ == old(self)@.insert(addr@, att@),
            final(self).order() == if old(self)@.dom().contains(addr@) {
                old(self).order()
            } else {
                old(self).order().push(addr@)
            },
            final(self).next_id() == old(self).next_id(),
            match was {
                Some(a) => old(self)@.dom().contains(addr@) && a@ == old(self)@[addr@],
                None => !old(self)@.dom().contains(addr@),
            },
    {
        let was = self.attached.insert(addr, att);
        proof {
            assert(self@ =~= old(self)@.insert(addr@, att@));
        }
        was
    }

    /// Whether `addr` is attached, and under which id; where it is not, the id under
    /// which a child is to be started for it, which is issued.
    pub fn ensure(&mut self, addr: &str) -> (r: Ensured)
        requires
            old(self).next_id() < u64::MAX,
        ensures
            final(self)@ == old(self)@,
            final(self).order() == old(self).order(),
            if old(self)@.dom().contains(addr@) {
                r == Ensured::Attached(old(self)@[addr@].id) && final(self).next_id()
                    == old(self).next_id()
            } else {
                r == Ensured::Spawn(old(self).next_id()) && final(self).next_id() == old(
                    self,
                ).next_id() + 1
            },
    {
        if let Some(a) = self.attached.get(addr) {
            return Ensured::Attached(a.id());
        }
        Ensured::Spawn(self.alloc_id())
    }

    /// Takes the attachment of `addr` out.
    pub fn remove(&mut self, addr: &str) -> (r: Option<Attachment>)
        ensures
            final(self)@ == old(self)@.remove(addr@),
            final(self).order() == text::without(old(self).order(), addr@),
            final(self).next_id() == old(self).next_id(),
            match r {
                Some(a) => old(self)@.dom().contains(addr@) && a@ == old(self)@[addr@],
                None => !old(self)@.dom().contains(addr@),
            },
    {
        let r = self.attached.remove(addr);
        proof {
            assert(self@ =~= old(self)@.remove(addr@));
        }
        r
    }

    /// The address of the attachment with this id.
    fn key_with(&self, id: u64) -> (r: Option<String>)
        ensures
            text::opt_text(r) == key_of(self.order(), self@, id),
            r matches Some(k) ==> self@.dom().contains(k@),
    {
        let n: usize = self.attached.len();
        let mut i: usize = 0;
        proof {
            assert(self.order().skip(0) =~= self.order());
        }
        while i < n
            invariant
                n == self.order().len(),
                i <= n,
                key_of(self.order(), self@, id) == key_of(self.order().skip(i as int), self@, id),
            decreases n - i,
        {
            let a = self.attached.value_at(i);
            let k = self.attached.key_at(i);
            proof {
                assert(a@ == self@[k@]);
                assert(self.order().skip(i as int).drop_first() =~= self.order().skip(i + 1));
            }
            if a.id() == id {
                return Some(k.to_owned());
            }
            i += 1;
        }
        None
    }

    /// Takes out the attachment with this id, whose child's output has ended.
    pub fn reap(&mut self, id: u64) -> (r: Option<Attachment>)
        ensures
            match key_of(old(self).order(), old(self)@, id) {
                Some(k) => final(self)@ == old(self)@.remove(k) && final(self).order()
                    == text::without(old(self).order(), k) && (r matches Some(a) && a@
                    == old(self)@[k]),
                None => final(self)@ == old(self)@ && final(self).order() == old(self).order() && r
                    is None,
            },
            final(self).next_id() == old(self).next_id(),
    {
        match self.key_with(id) {
            Some(k) => self.remove(k.as_str()),
            None => None,
        }
    }

    /// Resizes every attachment.
    pub fn resize_all(&mut self, cols: u16, rows: u16)
        requires
            is_size(rows, cols),
        ensures
            final(self)@ == old(self)@.map_values(|a: AttachmentView| resized(a, cols, rows)),
            final(self).order() == old(self).order(),
            final(self).next_id() == old(self).next_id(),
    {
        let ghost f = |a: AttachmentView| resized(a, cols, rows);
        let n: usize = self.attached.len();
        let mut i: usize = 0;
        while i < n
            invariant
                is_size(rows, cols),
                n == old(self).order().len(),
                i <= n,
                self.order() == old(self).order(),
                self.next_id() == old(self).next_id(),
                self@.dom() =~= old(self)@.dom(),
                keyed(old(self).order(), old(self)@),
                forall|j: int|
                    0 <= j < n ==> #[trigger] self@[self.order()[j]] == if j < i {
                        f(old(self)@[self.order()[j]])
                    } else {
                        old(self)@[self.order()[j]]
                    },
                f == (|a: AttachmentView| resized(a, cols, rows)),
            decreases n - i,
        {
            let k = self.attached.key_at(i).to_owned();
            let ghost before = self.attached@;
            let ghost was = self@;
            if let Some(a) = self.attached.get_mut(k.as_str()) {
                a.resize(cols, rows);
            }
            proof {
                assert(self.attached@ =~= before.insert(k@, self.attached@[k@]));
                assert(self@ =~= was.insert(k@, f(was[k@])));
                assert forall|j: int| 0 <= j < n implies #[trigger] self@[self.order()[j]] == if j
                    < i + 1 {
                    f(old(self)@[self.order()[j]])
                } else {
                    old(self)@[self.order()[j]]
                } by {
                    assert(was[self.order()[j]] == was[self.order()[j]]);
                    if j != i {
                        assert(self.order()[j] != self.order()[i as int]);
                    }
                }
            }
            i += 1;
        }
        proof {
            assert(self@ =~= old(self)@.map_values(f)) by {
                assert forall|k: Seq<char>| #[trigger] self@.dom().contains(k) implies self@[k] == f(
                    old(self)@[k],
                ) by {
                    let j = choose|j: int|
                        0 <= j < n && #[trigger] old(self).order()[j] == k;
                    assert(self@[self.order()[j]] == f(old(self)@[self.order()[j]]));
                }
            }
        }
    }

    /// Takes every attachment out, and hands out their ids: their children are to be
    /// killed.
    pub fn teardown_all(self) -> (ids: Vec<u64>)
        ensures
            ids@ == self.order().map_values(|k: Seq<char>| self@[k].id),
    {
        let n: usize = self.attached.len();
        let mut ids: Vec<u64> = Vec::new();
        let mut i: usize = 0;
        while i < n
            invariant
                n == self.order().len(),
                i <= n,
                ids@.len() == i,
                forall|j: int| 0 <= j < i ==> ids@[j] == self@[#[trigger] self.order()[j]].id,
            decreases n - i,
        {
            let a = self.attached.value_at(i);
            let k = self.attached.key_at(i);
            proof {
                assert(a@ == self@[k@]);
            }
            ids.push(a.id());
            i += 1;
        }
        proof {
            assert(ids@ =~= self.order().map_values(|k: Seq<char>| self@[k].id));
        }
        ids
    }
}

// ---------------------------------------------------------------------------
// Laws of the registry
// ---------------------------------------------------------------------------

/// A reaped attachment does not stand in the registry any more, and every other one
/// does.
pub proof fn reaping_takes_one_out(
    order: Seq<Seq<char>>,
    m: Map<Seq<char>, AttachmentView>,
    id: u64,
    k: Seq<char>,
)
    requires
        keyed(order, m),
    ensures
        key_of(order, m, id) matches Some(found) ==> m.dom().contains(found) && m[found].id == id,
        key_of(order, m, id) is None && m.dom().contains(k) ==> m[k].id != id,
{
    key_of_stands(order, m, id);
    if key_of(order, m, id) is None && m.dom().contains(k) {
        let j = choose|j: int| 0 <= j < order.len() && order[j] == k;
        assert(m[order[j]].id != id);
    }
}

proof fn key_of_stands(order: Seq<Seq<char>>, m: Map<Seq<char>, AttachmentView>, id: u64)
    ensures
        match key_of(order, m, id) {
            Some(k) => order.contains(k) && m[k].id == id,
            None => forall|j: int| 0 <= j < order.len() ==> m[#[trigger] order[j]].id != id,
        },
    decreases order.len(),
{
    if order.len() > 0 {
        let t = order.drop_first();
        key_of_stands(t, m, id);
        if m[order[0]].id == id {
            assert(order.contains(order[0]));
        } else {
            match key_of(t, m, id) {
                Some(k) => {
                    let j = choose|j: int| 0 <= j < t.len() && t[j] == k;
                    assert(order[j + 1] == k);
                },
                None => {
                    assert forall|j: int| 0 <= j < order.len() implies m[#[trigger] order[j]].id
                        != id by {
                        if j > 0 {
                            assert(t[j - 1] == order[j]);
                        }
                    }
                },
            }
        }
    }
}

/// The attachment with an id is the first of those with it in the order in which they were
/// attached, and none where there is none.
pub proof fn attachment_is_found_by_id(
    order: Seq<Seq<char>>,
    m: Map<Seq<char>, AttachmentView>,
    id: u64,
    i: int,
)
    requires
        0 <= i <= order.len(),
        forall|j: int| 0 <= j < i ==> m[#[trigger] order[j]].id != id,
        i < order.len() ==> m[order[i]].id == id,
    ensures
        i < order.len() ==> key_of(order, m, id) == Some(order[i]),
        i == order.len() ==> key_of(order, m, id) is None,
    decreases order.len(),
{
    if order.len() > 0 && i > 0 {
        let t = order.drop_first();
        assert(m[order[0]].id != id);
        assert forall|j: int| 0 <= j < i - 1 implies m[#[trigger] t[j]].id != id by {
            assert(t[j] == order[j + 1]);
        }
        attachment_is_found_by_id(t, m, id, i - 1);
    }
}

} // verus!
