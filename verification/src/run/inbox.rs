use vstd::prelude::*;

use crate::ident::Key;

verus! {

/// A message to a running graph. `I` is the type of a user input.
#[derive(Debug)]
pub enum Message<I> {
    /// An input for the conversation under `key`.
    Input { key: Key, input: I },
    Pause,
    Resume,
    Cancel,
}

/// Takes in one message during or after a superstep: an input is held
/// until the superstep's boundary, a pause is noted, a resume is ignored
/// (a run that is going needs none), and a cancel is reported.
pub fn absorb_message<I>(message: Message<I>, held: &mut Vec<(Key, I)>, pause: &mut bool) -> (cancel: bool)
    ensures
        cancel == message is Cancel,
        message is Input ==> final(held)@.len() == old(held)@.len() + 1 && final(held)@.drop_last()
            == old(held)@ && final(held)@.last().0@ == message->Input_key@ && final(held)@.last().1
            == message->Input_input,
        !(message is Input) ==> final(held)@ == old(held)@,
        *final(pause) == (*old(pause) || message is Pause),
{
    match message {
        Message::Input { key, input } => {
            held.push((key, input));
            false
        },
        Message::Pause => {
            *pause = true;
            false
        },
        Message::Resume => false,
        Message::Cancel => true,
    }
}

/// The position of the first cancel among the messages.
pub open spec fn first_cancel<I>(ms: Seq<Message<I>>) -> Option<int>
    decreases ms.len(),
{
    if ms.len() == 0 {
        None
    } else {
        match first_cancel(ms.drop_last()) {
            Some(k) => Some(k),
            None => if ms.last() is Cancel {
                Some(ms.len() - 1)
            } else {
                None
            },
        }
    }
}

/// The messages taken before the first cancel (all of them, without one).
pub open spec fn before_cancel<I>(ms: Seq<Message<I>>) -> Seq<Message<I>> {
    match first_cancel(ms) {
        Some(k) => ms.take(k),
        None => ms,
    }
}

/// The inputs among the messages, in order, as names and inputs.
pub open spec fn inputs_of<I>(ms: Seq<Message<I>>) -> Seq<(Seq<char>, I)>
    decreases ms.len(),
{
    if ms.len() == 0 {
        Seq::empty()
    } else {
        let r = inputs_of(ms.drop_last());
        match ms.last() {
            Message::Input { key, input } => r.push((key@, input)),
            _ => r,
        }
    }
}

/// Held inputs, as names and inputs.
pub open spec fn held_view<I>(held: Seq<(Key, I)>) -> Seq<(Seq<char>, I)> {
    held.map_values(|p: (Key, I)| (p.0@, p.1))
}

/// Takes in the messages that came during or after a superstep, in order,
/// as `absorb_message` takes each, until the first cancel: the inputs before
/// it are held in order, a pause before it is noted, resumes are ignored.
/// Gives whether a cancel came and the messages after it, which are not
/// taken.
pub fn absorb_messages<I>(messages: Vec<Message<I>>, held: &mut Vec<(Key, I)>, pause: &mut bool) -> (r: (
    bool,
    Vec<Message<I>>,
))
    ensures
        r.0 == first_cancel(messages@) is Some,
        r.1@ == match first_cancel(messages@) {
            Some(k) => messages@.skip(k + 1),
            None => Seq::<Message<I>>::empty(),
        },
        held_view(final(held)@) == held_view(old(held)@) + inputs_of(before_cancel(messages@)),
        *final(pause) == (*old(pause) || exists|i: int|
            0 <= i < before_cancel(messages@).len() && #[trigger] before_cancel(messages@)[i] is Pause),
{
    let ghost all = messages@;
    let ghost held0 = held_view(held@);
    let ghost pause0 = *pause;
    let mut rest = messages;
    let n = rest.len();
    let mut i: usize = 0;
    proof {
        assert(rest@ =~= all.skip(0));
        assert(all.take(0) =~= Seq::<Message<I>>::empty());
    }
    while i < n
        invariant
            all == messages@,
            held0 == held_view(old(held)@),
            pause0 == *old(pause),
            n == all.len(),
            i <= n,
            rest@ == all.skip(i as int),
            first_cancel(all.take(i as int)) is None,
            held_view(held@) == held0 + inputs_of(all.take(i as int)),
            *pause == (pause0 || exists|j: int| 0 <= j < i && #[trigger] all[j] is Pause),
        decreases n - i,
    {
        let message = rest.remove(0);
        proof {
            assert(rest@ =~= all.skip(i + 1));
            assert(message == all[i as int]);
            assert(all.take(i + 1).drop_last() =~= all.take(i as int));
            assert(all.take(i + 1).last() == all[i as int]);
        }
        let ghost before = held@;
        let cancel = absorb_message(message, held, pause);
        if cancel {
            proof {
                assert(all[i as int] is Cancel);
                assert(first_cancel(all.take(i + 1)) == Some(i as int));
                lemma_first_cancel_prefix(all, i as int + 1, i as int);
                let bc = before_cancel(all);
                assert(bc =~= all.take(i as int));
                assert(held_view(held@) == held_view(before));
                assert(inputs_of(bc) == inputs_of(all.take(i as int)));
                assert(rest@ =~= all.skip(i + 1));
                if *pause && !pause0 {
                    let j = choose|j: int| 0 <= j < i && #[trigger] all[j] is Pause;
                    assert(bc[j] is Pause);
                }
                if exists|j: int| 0 <= j < bc.len() && #[trigger] bc[j] is Pause {
                    let j = choose|j: int| 0 <= j < bc.len() && #[trigger] bc[j] is Pause;
                    assert(all[j] is Pause);
                }
            }
            return (true, rest);
        }
        proof {
            assert(first_cancel(all.take(i + 1)) is None);
            if all[i as int] is Input {
                assert(held@.drop_last() == before);
                assert(held_view(held@) =~= held_view(before).push((all[i as int]->Input_key@, all[i as int]->Input_input)));
            } else {
                assert(held_view(held@) =~= held_view(before));
            }
        }
        i = i + 1;
    }
    proof {
        assert(all.take(n as int) =~= all);
        assert(before_cancel(all) == all);
    }
    (false, Vec::new())
}

/// Once a cancel is found, longer prefixes find the same one.
proof fn lemma_first_cancel_prefix<I>(ms: Seq<Message<I>>, j: int, k: int)
    requires
        0 <= j <= ms.len(),
        first_cancel(ms.take(j)) == Some(k),
    ensures
        first_cancel(ms) == Some(k),
    decreases ms.len() - j,
{
    if j < ms.len() {
        assert(ms.take(j + 1).drop_last() =~= ms.take(j));
        lemma_first_cancel_prefix(ms, j + 1, k);
    } else {
        assert(ms.take(j) =~= ms);
    }
}

} // verus!
