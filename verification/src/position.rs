//! Positions in the ring: message number `m` is kept in slot `m % len`.
use vstd::arithmetic::div_mod::{
    lemma_add_mod_noop, lemma_fundamental_div_mod, lemma_mod_bound, lemma_mod_multiples_vanish,
    lemma_mod_twice, lemma_small_mod,
};
use vstd::prelude::*;

verus! {

/// The number of the youngest message that belongs in slot `slot` of a ring of
/// `len` slots, when `sent` messages have been sent. It is negative for a slot
/// that no message has reached yet.
pub open spec fn slot_message(sent: int, len: int, slot: int) -> int {
    sent - 1 - (sent - 1 - slot) % len
}

/// Two numbers less than a lap apart that share a slot are the same number.
pub proof fn lemma_same_slot(a: int, b: int, len: int)
    requires
        0 < len,
        -len < a - b < len,
        a % len == b % len,
    ensures
        a == b,
{
    lemma_fundamental_div_mod(a, len);
    lemma_fundamental_div_mod(b, len);
    assert(a - b == len * (a / len - b / len)) by (nonlinear_arith)
        requires
            a == len * (a / len) + a % len,
            b == len * (b / len) + b % len,
            a % len == b % len,
    ;
    let d = a / len - b / len;
    assert(d == 0) by (nonlinear_arith)
        requires
            -len < len * d < len,
            0 < len,
    ;
}

/// The slot after the one that number `m` belongs in is the one that `m + 1`
/// belongs in.
pub proof fn lemma_next_slot(m: int, len: int)
    requires
        0 < len,
    ensures
        (m % len + 1) % len == (m + 1) % len,
{
    lemma_add_mod_noop(m, 1, len);
    lemma_mod_twice(m, len);
    lemma_add_mod_noop(m % len, 1, len);
}

/// A slot's message is one of the last `len` messages, and belongs in the slot.
pub proof fn lemma_slot_message(sent: int, len: int, slot: int)
    requires
        0 <= slot < len,
    ensures
        sent - len <= slot_message(sent, len, slot) < sent,
        slot_message(sent, len, slot) % len == slot,
{
    let x = sent - 1 - slot;
    lemma_mod_bound(x, len);
    lemma_fundamental_div_mod(x, len);
    let m = slot_message(sent, len, slot);
    assert(m == len * (x / len) + slot);
    lemma_mod_multiples_vanish(x / len, slot, len);
    lemma_small_mod(slot as nat, len as nat);
}

/// Each of the last `len` messages is the message of its slot.
pub proof fn lemma_message_slot(sent: int, len: int, m: int)
    requires
        0 < len,
        sent - len <= m < sent,
    ensures
        0 <= m % len < len,
        slot_message(sent, len, m % len) == m,
{
    lemma_mod_bound(m, len);
    lemma_slot_message(sent, len, m % len);
    lemma_same_slot(slot_message(sent, len, m % len), m, len);
}

/// Sending one more message changes the message of one slot only.
pub proof fn lemma_slot_message_step(sent: int, len: int, slot: int)
    requires
        0 <= slot < len,
    ensures
        slot == sent % len ==> slot_message(sent + 1, len, slot) == sent,
        slot != sent % len ==> slot_message(sent + 1, len, slot) == slot_message(sent, len, slot),
{
    lemma_slot_message(sent + 1, len, slot);
    let m = slot_message(sent + 1, len, slot);
    if slot == sent % len {
        lemma_same_slot(m, sent, len);
    } else {
        lemma_message_slot(sent, len, m);
    }
}

} // verus!
