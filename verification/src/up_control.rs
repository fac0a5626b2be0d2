//! Programmatic control of user presence checks.
//!
//! A single byte of state decides what the next user presence check answers.
//! Values below 128 (other than zero) are one-shot: the check that reads them
//! consumes them and the state falls back to auto-approval. Values of 128 and
//! above are sticky until another command replaces them.

use vstd::prelude::*;

verus! {

/// No explicit decision: every check is approved.
pub const AUTO_APPROVE: u8 = 0;
/// Approve the next check only.
pub const APPROVE_ONCE: u8 = 1;
/// Approve every check until reset.
pub const APPROVE_STICKY: u8 = 129;
/// Deny every check until reset.
pub const DENY_STICKY: u8 = 128;

/// Byte a control client sends to ask whether the simulator is listening.
pub const CONTROL_PING: u8 = 0xFE;
/// Answer to [`CONTROL_PING`].
pub const CONTROL_PONG: u8 = 0xAA;
/// Answer to every other control byte.
pub const CONTROL_ACK: u8 = 0x00;

/// The consent level a user presence check reports.
#[derive(Clone, Copy, Debug, PartialEq, Eq, Structural)]
pub enum ConsentLevel {
    /// No consent was given.
    NotGiven,
    /// The user confirmed presence.
    Normal,
    /// The user confirmed presence with a stronger gesture.
    Strong,
}

/// The shared user-presence decision.
pub struct UpControl {
    response: u8,
}

impl View for UpControl {
    type V = u8;

    closed spec fn view(&self) -> u8 {
        self.response
    }
}

/// The level a check reports when the decision byte holds `v`.
pub open spec fn level_of(v: u8) -> ConsentLevel {
    if v == AUTO_APPROVE || v == APPROVE_ONCE || v == APPROVE_STICKY {
        ConsentLevel::Normal
    } else {
        ConsentLevel::NotGiven
    }
}

/// What a check leaves behind: one-shot values (1 to 127) are consumed.
pub open spec fn after_take(v: u8) -> u8 {
    if 0 < v && v < 128 {
        AUTO_APPROVE
    } else {
        v
    }
}

/// The levels reported by `n` consecutive checks starting from decision `v`.
pub open spec fn levels_of_checks(v: u8, n: nat) -> Seq<ConsentLevel>
    decreases n,
{
    if n == 0 {
        Seq::empty()
    } else {
        seq![level_of(v)] + levels_of_checks(after_take(v), (n - 1) as nat)
    }
}

impl UpControl {
    /// A control that auto-approves every check.
    pub fn new() -> (c: Self)
        ensures
            c@ == AUTO_APPROVE,
    {
        UpControl { response: AUTO_APPROVE }
    }

    /// The decision byte as it stands.
    pub fn current(&self) -> (v: u8)
        ensures
            v == self@,
    {
        self.response
    }
}

impl Default for UpControl {
    fn default() -> (c: Self)
        ensures
            c@ == AUTO_APPROVE,
    {
        UpControl::new()
    }
}

/// Read the current user presence decision. One-shot values are consumed.
pub fn take(control: &mut UpControl) -> (level: ConsentLevel)
    ensures
        level == level_of(old(control)@),
        final(control)@ == after_take(old(control)@),
{
    let val = control.response;
    if val > 0 && val < 128 {
        control.response = AUTO_APPROVE;
    }
    if val == AUTO_APPROVE || val == APPROVE_ONCE || val == APPROVE_STICKY {
        ConsentLevel::Normal
    } else {
        ConsentLevel::NotGiven
    }
}

/// Approve the next user presence check (consumed after one read).
pub fn approve(control: &mut UpControl)
    ensures
        final(control)@ == APPROVE_ONCE,
{
    control.response = APPROVE_ONCE;
}

/// Approve all user presence checks until `reset`.
pub fn approve_sticky(control: &mut UpControl)
    ensures
        final(control)@ == APPROVE_STICKY,
{
    control.response = APPROVE_STICKY;
}

/// Deny all user presence checks until `reset`.
pub fn deny(control: &mut UpControl)
    ensures
        final(control)@ == DENY_STICKY,
{
    control.response = DENY_STICKY;
}

/// Clear any pending response.
pub fn reset(control: &mut UpControl)
    ensures
        final(control)@ == AUTO_APPROVE,
{
    control.response = AUTO_APPROVE;
}

/// Whether `value` names one of the four control commands.
pub open spec fn is_up_command(value: u8) -> bool {
    value == AUTO_APPROVE || value == APPROVE_ONCE || value == DENY_STICKY || value
        == APPROVE_STICKY
}

/// Apply a control command byte. Returns whether the byte was recognized;
/// an unrecognized byte leaves the control unchanged.
pub fn apply_up_command(control: &mut UpControl, value: u8) -> (recognized: bool)
    ensures
        recognized == is_up_command(value),
        recognized ==> final(control)@ == value,
        !recognized ==> final(control)@ == old(control)@,
{
    if value == AUTO_APPROVE {
        reset(control);
        true
    } else if value == APPROVE_ONCE {
        approve(control);
        true
    } else if value == DENY_STICKY {
        deny(control);
        true
    } else if value == APPROVE_STICKY {
        approve_sticky(control);
        true
    } else {
        false
    }
}

/// What the control channel answers to one byte.
#[derive(Clone, Copy, Debug, PartialEq, Eq, Structural)]
pub struct ControlReply {
    /// The byte written back to the client.
    pub ack: u8,
    /// The byte was neither a ping nor a known command, and was ignored.
    pub ignored: bool,
}

/// Handle one byte received on the control channel: a ping is answered with
/// a pong and changes nothing; every other byte is applied as a command and
/// acknowledged.
pub fn handle_control_byte(control: &mut UpControl, byte: u8) -> (reply: ControlReply)
    ensures
        byte == CONTROL_PING ==> reply == (ControlReply { ack: CONTROL_PONG, ignored: false })
            && final(control)@ == old(control)@,
        byte != CONTROL_PING ==> reply.ack == CONTROL_ACK && reply.ignored == !is_up_command(byte)
            && (is_up_command(byte) ==> final(control)@ == byte)
            && (!is_up_command(byte) ==> final(control)@ == old(control)@),
{
    if byte == CONTROL_PING {
        ControlReply { ack: CONTROL_PONG, ignored: false }
    } else {
        let recognized = apply_up_command(control, byte);
        ControlReply { ack: CONTROL_ACK, ignored: !recognized }
    }
}

/// A check consumes at most once: a second check finds a decision that no
/// further check changes.
pub proof fn lemma_take_settles(v: u8)
    ensures
        after_take(after_take(v)) == after_take(v),
{
}

/// `approve` grants exactly one explicit approval: the first check is
/// approved and leaves the control auto-approving again.
pub proof fn lemma_approve_once_is_consumed()
    ensures
        level_of(APPROVE_ONCE) == ConsentLevel::Normal,
        after_take(APPROVE_ONCE) == AUTO_APPROVE,
{
}

/// Every check made after `deny` and before another command is denied.
pub proof fn lemma_deny_is_sticky(n: nat)
    ensures
        levels_of_checks(DENY_STICKY, n) == Seq::new(n, |i: int| ConsentLevel::NotGiven),
    decreases n,
{
    if n > 0 {
        lemma_deny_is_sticky((n - 1) as nat);
    }
    assert(levels_of_checks(DENY_STICKY, n) =~= Seq::new(n, |i: int| ConsentLevel::NotGiven));
}

/// Every check made after `approve_sticky` and before another command is
/// approved.
pub proof fn lemma_approve_sticky_is_sticky(n: nat)
    ensures
        levels_of_checks(APPROVE_STICKY, n) == Seq::new(n, |i: int| ConsentLevel::Normal),
    decreases n,
{
    if n > 0 {
        lemma_approve_sticky_is_sticky((n - 1) as nat);
    }
    assert(levels_of_checks(APPROVE_STICKY, n) =~= Seq::new(n, |i: int| ConsentLevel::Normal));
}

/// Without any command, every check is approved.
pub proof fn lemma_auto_approve_approves_all(n: nat)
    ensures
        levels_of_checks(AUTO_APPROVE, n) == Seq::new(n, |i: int| ConsentLevel::Normal),
    decreases n,
{
    if n > 0 {
        lemma_auto_approve_approves_all((n - 1) as nat);
    }
    assert(levels_of_checks(AUTO_APPROVE, n) =~= Seq::new(n, |i: int| ConsentLevel::Normal));
}

/// After `approve`, the first of `n` checks is approved and every later one
/// is approved only because the control auto-approves again.
pub proof fn lemma_approve_then_checks(n: nat)
    requires
        n > 0,
    ensures
        levels_of_checks(APPROVE_ONCE, n) == seq![ConsentLevel::Normal] + levels_of_checks(
            AUTO_APPROVE,
            (n - 1) as nat,
        ),
{
}

} // verus!
