//! The serialized event loop body: one event in, the registry change and the
//! writes to perform out.

use vstd::prelude::*;
use crate::registry::{Conn, Registry, listed, without, ids_of, distinct_ids};

verus! {

/// The fixed system messages of the relay.
#[derive(Debug, Clone, Copy, PartialEq, Eq)]
pub enum Notice {
    Joined,
    Left,
    Kicked,
}

/// A message to write to connections.
#[derive(Debug, PartialEq, Eq)]
pub enum Outbound {
    /// The number of connections now registered.
    UserCount(u64),
    /// One of the relay's own system messages.
    System(Notice),
    /// A client's event, forwarded in the encoded form it arrived in.
    Forward(String),
}

/// One message and the connections to write it to, in this order.
pub struct Fanout {
    pub msg: Outbound,
    pub targets: Vec<u64>,
}

/// The coordinator's input.
pub enum Event<H> {
    /// A connection is ready to receive broadcasts.
    Join(u64, H),
    /// A connection went away.
    Leave(u64),
    /// A validated message to send to every registered connection.
    Publish(String),
    /// A connection is to be closed by force.
    Kick(u64),
}

/// What the caller performs after one event.
pub struct Step<H> {
    /// A handle removed by a kick: send it the `Kicked` notice, then close it.
    pub closing: Option<H>,
    /// Messages to write, in order.
    pub fanouts: Vec<Fanout>,
}

/// The registry after event `ev` on registry `s`.
pub open spec fn next<H>(s: Seq<Conn<H>>, ev: Event<H>) -> Seq<Conn<H>> {
    match ev {
        Event::Join(id, h) => s.push((Conn { id, handle: h })),
        Event::Leave(id) => without(s, set![id]),
        Event::Kick(id) => without(s, set![id]),
        Event::Publish(_) => s,
    }
}

/// A join must bring an identity that is not registered yet.
pub open spec fn admissible<H>(s: Seq<Conn<H>>, ev: Event<H>) -> bool {
    match ev {
        Event::Join(id, _) => !listed(s, id),
        _ => true,
    }
}

/// `f` writes `m` to exactly the identities `t`, in that order.
pub open spec fn sends(f: Fanout, m: Outbound, t: Seq<u64>) -> bool {
    f.msg == m && f.targets@ == t
}

/// The presence update after a membership change: the new count, then notice `n`,
/// both to every connection of `s`.
pub open spec fn presence<H>(fs: Seq<Fanout>, s: Seq<Conn<H>>, n: Notice) -> bool {
    &&& fs.len() == 2
    &&& sends(fs[0], Outbound::UserCount(s.len() as u64), ids_of(s))
    &&& sends(fs[1], Outbound::System(n), ids_of(s))
}

/// The identities whose write failed: `delivered[k]` tells whether writing to `sent[k]` worked.
pub open spec fn failed(sent: Seq<u64>, delivered: Seq<bool>) -> Set<u64> {
    Set::new(
        |x: u64|
            exists|k: int| 0 <= k < sent.len() && k < delivered.len() && sent[k] == x && !delivered[k],
    )
}

/// The text of a system message.
pub fn notice_text(n: Notice) -> (r: String)
    ensures
        n == Notice::Joined ==> r@ == "Someone has joined"@,
        n == Notice::Left ==> r@ == "Somebody has left"@,
        n == Notice::Kicked ==> r@ == "You have been kicked for sending arbitrary JSON to the server."@,
{
    match n {
        Notice::Joined => String::from_str("Someone has joined"),
        Notice::Left => String::from_str("Somebody has left"),
        Notice::Kicked => String::from_str("You have been kicked for sending arbitrary JSON to the server."),
    }
}

/// Owner of the registry; applies events one at a time.
pub struct Coordinator<H> {
    registry: Registry<H>,
}

impl<H> View for Coordinator<H> {
    type V = Seq<Conn<H>>;

    closed spec fn view(&self) -> Seq<Conn<H>> {
        self.registry@
    }
}

impl<H> Coordinator<H> {
    /// Every identity is registered at most once.
    pub open spec fn wf(&self) -> bool {
        distinct_ids(self@)
    }

    /// A coordinator with no connections.
    pub fn new() -> (r: Self)
        ensures
            r@ == Seq::<Conn<H>>::empty(),
            r.wf(),
    {
        Coordinator { registry: Registry::new() }
    }

    /// The registry, for looking up the handles to write to.
    pub fn registry(&self) -> (r: &Registry<H>)
        ensures
            r@ == self@,
    {
        &self.registry
    }

    /// The count and then notice `n`, to every registered connection.
    fn presence_update(&self, n: Notice) -> (r: Vec<Fanout>)
        ensures
            presence(r@, self@, n),
    {
        let count = Fanout { msg: Outbound::UserCount(self.registry.len() as u64), targets: self.registry.ids() };
        let notice = Fanout { msg: Outbound::System(n), targets: self.registry.ids() };
        let r = vec![count, notice];
        r
    }

    /// Applies one event and says what to write.
    pub fn step(&mut self, ev: Event<H>) -> (r: Step<H>)
        requires
            old(self).wf(),
            admissible(old(self)@, ev),
        ensures
            final(self).wf(),
            final(self)@ == next(old(self)@, ev),
            match ev {
                Event::Join(_, _) => r.closing is None && presence(r.fanouts@, final(self)@, Notice::Joined),
                Event::Leave(id) => {
                    &&& r.closing is None
                    &&& listed(old(self)@, id) ==> presence(r.fanouts@, final(self)@, Notice::Left)
                    &&& !listed(old(self)@, id) ==> r.fanouts@.len() == 0
                },
                Event::Kick(id) => {
                    &&& r.closing is Some == listed(old(self)@, id)
                    &&& r.closing matches Some(h) ==> old(self)@.contains((Conn { id, handle: h }))
                    &&& listed(old(self)@, id) ==> presence(r.fanouts@, final(self)@, Notice::Left)
                    &&& !listed(old(self)@, id) ==> r.fanouts@.len() == 0
                },
                Event::Publish(p) => {
                    &&& r.closing is None
                    &&& r.fanouts@.len() == 1
                    &&& sends(r.fanouts@[0], Outbound::Forward(p), ids_of(old(self)@))
                },
            },
    {
        match ev {
            Event::Join(id, h) => {
                self.registry.register(id, h);
                Step { closing: None, fanouts: self.presence_update(Notice::Joined) }
            },
            Event::Leave(id) => {
                if self.registry.unregister(id) {
                    Step { closing: None, fanouts: self.presence_update(Notice::Left) }
                } else {
                    Step { closing: None, fanouts: Vec::new() }
                }
            },
            Event::Kick(id) => {
                let closing = self.registry.take(id);
                if closing.is_some() {
                    Step { closing, fanouts: self.presence_update(Notice::Left) }
                } else {
                    Step { closing, fanouts: Vec::new() }
                }
            },
            Event::Publish(p) => {
                let targets = self.registry.ids();
                let r = Step { closing: None, fanouts: vec![Fanout { msg: Outbound::Forward(p), targets }] };
                r
            },
        }
    }

    /// Takes the report of one fan-out (`delivered[k]` tells whether the write to
    /// `sent[k]` worked), unregisters every connection whose write failed, and says
    /// what to write next.
    pub fn settle(&mut self, sent: &Vec<u64>, delivered: &Vec<bool>) -> (r: Vec<Fanout>)
        requires
            old(self).wf(),
            sent@.len() == delivered@.len(),
        ensures
            final(self).wf(),
            final(self)@ == without(old(self)@, failed(sent@, delivered@)),
            final(self)@.len() < old(self)@.len() ==> presence(r@, final(self)@, Notice::Left),
            final(self)@.len() == old(self)@.len() ==> r@.len() == 0,
    {
        let mut gone: Vec<u64> = Vec::new();
        let mut k: usize = 0;
        while k < sent.len()
            invariant
                k <= sent@.len(),
                sent@.len() == delivered@.len(),
                forall|x: u64|
                    gone@.contains(x) <==> exists|m: int| 0 <= m < k && sent@[m] == x && !delivered@[m],
            decreases sent@.len() - k,
        {
            let ghost g0 = gone@;
            if !delivered[k] {
                gone.push(sent[k]);
            }
            proof {
                let kk = k as int;
                assert forall|x: u64|
                    gone@.contains(x) <==> exists|m: int| 0 <= m < kk + 1 && sent@[m] == x && !delivered@[m] by {
                    if gone@.contains(x) {
                        let i = choose|i: int| 0 <= i < gone@.len() && gone@[i] == x;
                        if i < g0.len() {
                            assert(g0[i] == x);
                            assert(g0.contains(x));
                        } else {
                            assert(sent@[kk] == x && !delivered@[kk]);
                        }
                    }
                    if exists|m: int| 0 <= m < kk + 1 && sent@[m] == x && !delivered@[m] {
                        let m = choose|m: int| 0 <= m < kk + 1 && sent@[m] == x && !delivered@[m];
                        if m < kk {
                            assert(g0.contains(x));
                            let i = choose|i: int| 0 <= i < g0.len() && g0[i] == x;
                            assert(gone@[i] == x);
                        } else {
                            assert(gone@[gone@.len() - 1] == x);
                        }
                    }
                }
            }
            k = k + 1;
        }
        assert(gone@.to_set() =~= failed(sent@, delivered@));
        let before = self.registry.len();
        self.registry.drop_all(&gone);
        proof {
            crate::registry::lemma_without_members(old(self)@, failed(sent@, delivered@));
            old(self)@.lemma_filter_len(|c: Conn<H>| !failed(sent@, delivered@).contains(c.id));
        }
        if self.registry.len() < before {
            self.presence_update(Notice::Left)
        } else {
            Vec::new()
        }
    }
}

} // verus!
