//! In-process publish/subscribe of semantic messages between subsystems.

use vstd::prelude::*;

verus! {

/// A semantic notification exchanged between the game core and its
/// observers: a placement intent, a move that was (re)applied, or a move
/// that was reversed.
#[derive(Clone, Copy, Debug, Hash, PartialEq, Eq, Structural)]
pub enum Message {
    DropPiece(usize, usize),
    DoMove,
    UndoMove,
}

/// Every registered mailbox grew by exactly the messages `evs`, appended at
/// the tail, and no mailbox appeared or disappeared.
pub open spec fn obs_extended(
    pre: Seq<Seq<Message>>,
    post: Seq<Seq<Message>>,
    evs: Seq<Message>,
) -> bool {
    &&& post.len() == pre.len()
    &&& forall|j: int| 0 <= j < pre.len() ==> post[j] == pre[j] + evs
}

/// Single-threaded fan-out bus. `publish` appends a message to every
/// registered observer mailbox, in registration order; each mailbox is
/// drained by its owning subsystem on its own tick.
pub struct System {
    /// Inbound mailbox of the subsystem that owns this bus.
    pub message_queue: Vec<Message>,
    observers: Vec<Vec<Message>>,
}

impl System {
    /// The registered observer mailboxes, in registration order.
    pub closed spec fn obs(self) -> Seq<Seq<Message>> {
        self.observers@.map(|j: int, q: Vec<Message>| q@)
    }

    /// The inbound mailbox of the bus owner.
    pub closed spec fn inbox(self) -> Seq<Message> {
        self.message_queue@
    }

    pub fn new() -> (s: Self)
        ensures
            s.inbox() == Seq::<Message>::empty(),
            s.obs() == Seq::<Seq<Message>>::empty(),
    {
        let s = Self { message_queue: Vec::new(), observers: Vec::new() };
        proof {
            assert(s.obs() =~= Seq::<Seq<Message>>::empty());
        }
        s
    }

    /// Registers a fresh, empty mailbox; the returned handle names it for
    /// `drain_observer`.
    pub fn add_observer(&mut self) -> (id: usize)
        ensures
            id == old(self).obs().len(),
            final(self).obs() == old(self).obs().push(Seq::<Message>::empty()),
            final(self).inbox() == old(self).inbox(),
    {
        let id = self.observers.len();
        self.observers.push(Vec::new());
        proof {
            assert(self.obs() =~~= old(self).obs().push(Seq::<Message>::empty()));
        }
        id
    }

    /// Appends `message` to every registered mailbox.
    pub fn publish(&mut self, message: Message)
        ensures
            obs_extended(old(self).obs(), final(self).obs(), seq![message]),
            final(self).inbox() == old(self).inbox(),
    {
        let n = self.observers.len();
        let mut i: usize = 0;
        while i < n
            invariant
                i <= n,
                n == self.observers@.len(),
                n == old(self).observers@.len(),
                self.message_queue == old(self).message_queue,
                forall|j: int| 0 <= j < i
                    ==> (#[trigger] self.observers@[j])@ == old(self).observers@[j]@ + seq![message],
                forall|j: int| i <= j < n
                    ==> #[trigger] self.observers@[j] == old(self).observers@[j],
            decreases n - i,
        {
            self.observers[i].push(message);
            proof {
                assert(self.observers@[i as int]@ =~= old(self).observers@[i as int]@ + seq![message]);
            }
            i += 1;
        }
        proof {
            assert forall|j: int| 0 <= j < old(self).obs().len()
                implies self.obs()[j] == old(self).obs()[j] + seq![message] by {
                assert(self.obs()[j] == self.observers@[j]@);
                assert(old(self).obs()[j] == old(self).observers@[j]@);
            }
        }
    }

    /// Posts a message into the owner's own inbound mailbox; how a driver
    /// hands intents to the subsystem that owns this bus.
    pub fn post(&mut self, message: Message)
        ensures
            final(self).inbox() == old(self).inbox().push(message),
            final(self).obs() == old(self).obs(),
    {
        self.message_queue.push(message);
    }

    /// Takes the whole inbound mailbox, leaving it empty.
    pub fn take_inbox(&mut self) -> (msgs: Vec<Message>)
        ensures
            msgs@ == old(self).inbox(),
            final(self).inbox() == Seq::<Message>::empty(),
            final(self).obs() == old(self).obs(),
    {
        let mut taken: Vec<Message> = Vec::new();
        core::mem::swap(&mut taken, &mut self.message_queue);
        taken
    }

    /// Hands the mailbox named by `id` to its owner and leaves an empty one
    /// in its place.
    pub fn drain_observer(&mut self, id: usize) -> (msgs: Vec<Message>)
        requires
            id < old(self).obs().len(),
        ensures
            msgs@ == old(self).obs()[id as int],
            final(self).obs() == old(self).obs().update(id as int, Seq::<Message>::empty()),
            final(self).inbox() == old(self).inbox(),
    {
        let mut taken: Vec<Message> = Vec::new();
        core::mem::swap(&mut taken, &mut self.observers[id]);
        proof {
            assert(self.obs() =~~= old(self).obs().update(id as int, Seq::<Message>::empty()));
        }
        taken
    }
}

} // verus!
