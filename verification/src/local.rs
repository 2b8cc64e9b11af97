use vstd::prelude::*;
use crate::geometry::Time;
use crate::id::PlayerId;
use crate::logic::{model_step, step_room};
use crate::model::{Event, Message, Model};
use crate::player::{lone_heavy_shot, message_handled};

verus! {

/// The messages can be handled in turn, each with the identifiers it may take and
/// without a heavy shot over a single bullet, and the step after them fits (see
/// `step_room`), whatever each message leads to.
pub open spec fn queue_fits(m: Model, pid: PlayerId, msgs: Seq<Message>) -> bool
    decreases msgs.len(),
{
    if msgs.len() == 0 {
        step_room(m)
    } else {
        &&& m.id_gen.next_spec() + m.config().gun_heavy_bullets + 1 <= u64::MAX
        &&& !lone_heavy_shot(m, pid, msgs[0])
        &&& forall|m1: Model, e0: Seq<Event>, e1: Seq<Event>|
            #[trigger] message_handled(m, e0, m1, e1, pid, msgs[0]) && m1.wf() ==> queue_fits(
                m1,
                pid,
                msgs.drop_first(),
            )
    }
}

/// The messages handled in turn lead from `m0` with the events `e0` to `m1` with
/// the events `e1`.
pub open spec fn handled_all(m0: Model, e0: Seq<Event>, pid: PlayerId, msgs: Seq<Message>, m1: Model, e1: Seq<Event>) -> bool
    decreases msgs.len(),
{
    if msgs.len() == 0 {
        m1 == m0 && e1 == e0
    } else {
        exists|m: Model, e: Seq<Event>|
            #[trigger] message_handled(m0, e0, m, e, pid, msgs[0]) && m.wf() && handled_all(
                m,
                e,
                pid,
                msgs.drop_first(),
                m1,
                e1,
            )
    }
}

proof fn lemma_handled_snoc(
    m0: Model,
    e0: Seq<Event>,
    pid: PlayerId,
    msgs: Seq<Message>,
    m1: Model,
    e1: Seq<Event>,
    msg: Message,
    m2: Model,
    e2: Seq<Event>,
)
    requires
        handled_all(m0, e0, pid, msgs, m1, e1),
        message_handled(m1, e1, m2, e2, pid, msg),
        m2.wf(),
    ensures
        handled_all(m0, e0, pid, msgs.push(msg), m2, e2),
    decreases msgs.len(),
{
    if msgs.len() == 0 {
        assert(msgs.push(msg).drop_first() =~= Seq::<Message>::empty());
        assert(handled_all(m2, e2, pid, Seq::<Message>::empty(), m2, e2));
        assert(message_handled(m0, e0, m2, e2, pid, msgs.push(msg)[0]));
    } else {
        let (m, e) = choose|m: Model, e: Seq<Event>|
            #[trigger] message_handled(m0, e0, m, e, pid, msgs[0]) && m.wf() && handled_all(
                m,
                e,
                pid,
                msgs.drop_first(),
                m1,
                e1,
            );
        lemma_handled_snoc(m, e, pid, msgs.drop_first(), m1, e1, msg, m2, e2);
        assert(msgs.drop_first().push(msg) =~= msgs.push(msg).drop_first());
        assert(message_handled(m0, e0, m, e, pid, msgs.push(msg)[0]));
    }
}

/// A game played on this machine by one player: the model and the messages that
/// the player sent since the last update.
pub struct Local {
    pub player_id: PlayerId,
    pub model: Model,
    pub messages: Vec<Message>,
}

impl Local {
    /// A game of `model` for the player `player_id`, with no message yet.
    pub fn local(model: Model, player_id: PlayerId) -> (l: Local)
        ensures
            l.model == model,
            l.player_id == player_id,
            l.messages@.len() == 0,
    {
        Local { player_id, model, messages: Vec::new() }
    }

    /// The model as it stands.
    pub fn get(&self) -> (m: &Model)
        ensures
            *m == self.model,
    {
        &self.model
    }

    /// Queues a message for the next update.
    pub fn send(&mut self, message: Message)
        ensures
            final(self).messages@ == old(self).messages@.push(message),
            final(self).model == old(self).model,
            final(self).player_id == old(self).player_id,
    {
        self.messages.push(message);
    }

    /// Handles the queued messages in turn, then advances the game by `delta_time`,
    /// and returns what all of it reported.
    pub fn update(&mut self, delta_time: Time) -> (events: Vec<Event>)
        requires
            old(self).model.wf(),
            queue_fits(old(self).model, old(self).player_id, old(self).messages@),
        ensures
            final(self).model.wf(),
            final(self).messages@.len() == 0,
            final(self).player_id == old(self).player_id,
            exists|m: Model, e: Vec<Event>|
                #[trigger] handled_all(old(self).model, Seq::empty(), old(self).player_id, old(self).messages@, m, e@)
                    && model_step(m, e, delta_time, final(self).model, events),
    {
        let player_id: PlayerId = self.player_id;
        let mut queue: Vec<Message> = Vec::new();
        std::mem::swap(&mut queue, &mut self.messages);
        let ghost m0 = self.model;
        let ghost msgs = queue@;
        let mut events: Vec<Event> = Vec::new();
        let mut i: usize = 0;
        proof {
            assert(msgs.take(0) =~= Seq::<Message>::empty());
            assert(msgs.skip(0) =~= msgs);
        }
        while i < queue.len()
            invariant
                i <= msgs.len(),
                queue@ == msgs,
                self.player_id == player_id,
                self.messages@.len() == 0,
                self.model.wf(),
                handled_all(m0, Seq::empty(), player_id, msgs.take(i as int), self.model, events@),
                queue_fits(self.model, player_id, msgs.skip(i as int)),
            decreases msgs.len() - i,
        {
            let ghost mi = self.model;
            let ghost ei = events@;
            let message: Message = queue[i];
            proof {
                assert(msgs.skip(i as int)[0] == message);
            }
            self.model.handle_message(&mut events, &player_id, message);
            proof {
                lemma_handled_snoc(m0, Seq::empty(), player_id, msgs.take(i as int), mi, ei, message, self.model, events@);
                assert(msgs.take(i as int).push(message) =~= msgs.take(i as int + 1));
                assert(msgs.skip(i as int).drop_first() =~= msgs.skip(i as int + 1));
                assert(message_handled(mi, ei, self.model, events@, player_id, msgs.skip(i as int)[0]));
            }
            i = i + 1;
        }
        let ghost mm = self.model;
        let ghost ee = events;
        proof {
            assert(msgs.take(msgs.len() as int) =~= msgs);
            assert(msgs.skip(msgs.len() as int) =~= Seq::<Message>::empty());
        }
        self.model.update(delta_time, &mut events);
        proof {
            assert(handled_all(m0, Seq::empty(), player_id, msgs, mm, ee@));
        }
        events
    }
}

} // verus!
