//! Laws that tie the registry, the handler and the bus filter
//! together: who is delivered what, and how often.

use vstd::prelude::*;
use crate::handler::informs_ok;
use crate::messages::ID;
use crate::messages::Message;
use crate::messages::MessageKind;
use crate::registry::lemma_others_of;
use crate::registry::others_of;
use crate::registry::registry_wf;
use crate::relay::delivered_to;

verus! {

/// How many of the messages the bus filter delivers to the connection
/// whose own identity is `d`.
pub open spec fn count_delivered(msgs: Seq<Message>, d: ID) -> nat
    decreases msgs.len(),
{
    if msgs.len() == 0 {
        0
    } else {
        (if delivered_to(d, msgs[0]@) {
            1nat
        } else {
            0nat
        }) + count_delivered(msgs.drop_first(), d)
    }
}

/// How many times an identity occurs in a sequence.
pub open spec fn count_id(s: Seq<ID>, d: ID) -> nat
    decreases s.len(),
{
    if s.len() == 0 {
        0
    } else {
        (if s[0] == d {
            1nat
        } else {
            0nat
        }) + count_id(s.drop_first(), d)
    }
}

/// Under the registry invariant an identity occurs exactly once when
/// present and never otherwise.
pub proof fn lemma_wf_count(s: Seq<ID>, d: ID)
    requires
        registry_wf(s),
    ensures
        count_id(s, d) == (if s.contains(d) {
            1nat
        } else {
            0nat
        }),
    decreases s.len(),
{
    if s.len() > 0 {
        let t = s.drop_first();
        assert(registry_wf(t)) by {
            assert forall|i: int| 0 <= i < t.len() implies #[trigger] t[i] is Device by {
                assert(t[i] == s[i + 1]);
            }
            assert forall|i: int, j: int| 0 <= i < j < t.len() implies t[i] != t[j] by {
                assert(t[i] == s[i + 1] && t[j] == s[j + 1]);
            }
        }
        lemma_wf_count(t, d);
        if s[0] == d {
            if t.contains(d) {
                let k = choose|k: int| 0 <= k < t.len() && t[k] == d;
                assert(s[k + 1] == s[0]);
                assert(false);
            }
        } else {
            if t.contains(d) {
                let k = choose|k: int| 0 <= k < t.len() && t[k] == d;
                assert(s[k + 1] == d);
                assert(s.contains(d));
            }
            if s.contains(d) {
                let k = choose|k: int| 0 <= k < s.len() && s[k] == d;
                assert(t[k - 1] == d);
            }
        }
    }
}

/// In one batch of informs, the deliveries to a connection equal its
/// identity's occurrences among the targets.
pub proof fn lemma_informs_deliveries(
    msgs: Seq<Message>,
    kind: MessageKind,
    targets: Seq<ID>,
    subject: ID,
    d: ID,
)
    requires
        informs_ok(msgs, kind, targets, subject),
    ensures
        count_delivered(msgs, d) == count_id(targets, d),
    decreases msgs.len(),
{
    if msgs.len() > 0 {
        let mt = msgs.drop_first();
        let tt = targets.drop_first();
        assert(informs_ok(mt, kind, tt, subject)) by {
            assert forall|j: int| 0 <= j < mt.len() implies {
                &&& (#[trigger] mt[j])@.kind == kind
                &&& mt[j]@.target == tt[j]
                &&& mt[j]@.from == ID::Master
                &&& crate::idcodec::parse_id_text(vstd::utf8::encode_utf8(mt[j]@.body))
                    == Ok::<ID, crate::errors::DecodeError>(subject)
            } by {
                assert(mt[j] == msgs[j + 1]);
                assert(tt[j] == targets[j + 1]);
            }
        }
        lemma_informs_deliveries(mt, kind, tt, subject, d);
        assert(msgs[0]@.target == targets[0]);
    }
}

/// After a close, every remaining registered device is delivered the
/// departing `ClosedRegisteredDevice` exactly once, and a connection
/// no longer registered is delivered none.
pub proof fn lemma_close_informs_each_once(
    msgs: Seq<Message>,
    reg_after: Seq<ID>,
    closed: ID,
    d: ID,
)
    requires
        informs_ok(msgs, MessageKind::ClosedRegisteredDevice, reg_after, closed),
        registry_wf(reg_after),
    ensures
        reg_after.contains(d) ==> count_delivered(msgs, d) == 1,
        !reg_after.contains(d) ==> count_delivered(msgs, d) == 0,
{
    lemma_informs_deliveries(msgs, MessageKind::ClosedRegisteredDevice, reg_after, closed, d);
    lemma_wf_count(reg_after, d);
}

/// A registration's informs reach every previously registered device
/// exactly once, and no other connection.
pub proof fn lemma_register_informs_each_once(
    msgs: Seq<Message>,
    old_reg: Seq<ID>,
    new_id: ID,
    d: ID,
)
    requires
        informs_ok(msgs, MessageKind::NewRegisteredDevice, old_reg, new_id),
        registry_wf(old_reg),
    ensures
        old_reg.contains(d) ==> count_delivered(msgs, d) == 1,
        !old_reg.contains(d) ==> count_delivered(msgs, d) == 0,
{
    lemma_informs_deliveries(msgs, MessageKind::NewRegisteredDevice, old_reg, new_id, d);
    lemma_wf_count(old_reg, d);
}

/// The device list handed to an asker never holds the asker's own
/// identity, and holds every other registered identity exactly once.
pub proof fn lemma_get_devices_exact(reg: Seq<ID>, own: ID, d: ID)
    requires
        registry_wf(reg),
    ensures
        !others_of(reg, own).contains(own),
        d != own ==> count_id(others_of(reg, own), d) == (if reg.contains(d) {
            1nat
        } else {
            0nat
        }),
{
    lemma_others_of(reg, own);
    if d != own {
        lemma_wf_count(others_of(reg, own), d);
    }
}

} // verus!
