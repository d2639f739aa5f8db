//! The pairing agent: Just-Works style auto-accept.

use vstd::prelude::*;

verus! {

/// What the agent is asked.
#[derive(Debug, Clone, Copy, PartialEq, Eq, Structural)]
pub enum AgentRequest {
    PinCode,
    DisplayPinCode,
    /// Passkey-entry pairing needs the HID transport to "type" the digits,
    /// which is not supported.
    Passkey,
    DisplayPasskey,
    Confirmation,
    Authorization,
    Service,
}

/// What it answers.
#[derive(Debug, Clone, PartialEq, Eq)]
pub enum AgentReply {
    Accept,
    /// Accept, with this pin code.
    PinCode(String),
    Reject,
}

/// The pin code sent to whoever asks for one.
pub const PIN_CODE: &'static str = "0000";

pub fn agent_reply(request: AgentRequest) -> (r: AgentReply)
    ensures
        r == AgentReply::Reject <==> request == AgentRequest::Passkey,
        r matches AgentReply::PinCode(pin) ==> request == AgentRequest::PinCode && pin@
            == PIN_CODE@,
        request == AgentRequest::PinCode ==> r is PinCode,
{
    match request {
        AgentRequest::PinCode => AgentReply::PinCode(PIN_CODE.to_owned()),
        AgentRequest::Passkey => AgentReply::Reject,
        AgentRequest::DisplayPinCode => AgentReply::Accept,
        AgentRequest::DisplayPasskey => AgentReply::Accept,
        AgentRequest::Confirmation => AgentReply::Accept,
        AgentRequest::Authorization => AgentReply::Accept,
        AgentRequest::Service => AgentReply::Accept,
    }
}

/// The pin code is four zeros.
pub proof fn law_pin_code()
    ensures
        PIN_CODE@ == seq!['0', '0', '0', '0'],
{
    reveal_strlit("0000");
    assert(PIN_CODE@ =~= seq!['0', '0', '0', '0']);
}

} // verus!
