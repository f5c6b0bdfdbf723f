//! Responses of the service.
use vstd::prelude::*;

verus! {

/// The status code of a successful response.
pub const STATUS_OK: u16 = 100;

/// An error that the service reported.
#[derive(Clone, Debug, PartialEq, Eq)]
pub struct SwitchBotError {
    pub status_code: u16,
    pub message: String,
}

impl SwitchBotError {
    /// The text shown for this error.
    pub fn text(&self) -> (r: String)
        ensures
            r@ == seq!['S', 'w', 'i', 't', 'c', 'h', 'B', 'o', 't', ' ', 'A', 'P', 'I', ' ', 'e', 'r', 'r', 'o', 'r', ':', ' ']
                + self.message@ + seq![' ', '('] + crate::number::decimal_text(self.status_code as nat) + seq![')'],
    {
        let mut r = crate::text::to_string("SwitchBot API error: ");
        r.append(self.message.as_str());
        r.append(" (");
        let code = crate::number::format_natural(self.status_code as u64);
        r.append(code.as_str());
        r.append(")");
        proof {
            reveal_strlit("SwitchBot API error: ");
            reveal_strlit(" (");
            reveal_strlit(")");
        }
        assert(r@ =~= seq!['S', 'w', 'i', 't', 'c', 'h', 'B', 'o', 't', ' ', 'A', 'P', 'I', ' ', 'e', 'r', 'r', 'o', 'r', ':', ' ']
                + self.message@ + seq![' ', '('] + crate::number::decimal_text(self.status_code as nat) + seq![')']);
        r
    }
}

/// The body of a response with `status_code` and `message`: every status
/// but `STATUS_OK` is an error of the service.
pub fn body_from_response<T>(status_code: u16, message: String, body: Option<T>) -> (r: Result<Option<T>, SwitchBotError>)
    ensures
        status_code == STATUS_OK ==> r == Ok::<Option<T>, SwitchBotError>(body),
        status_code != STATUS_OK ==> r is Err && r->Err_0.status_code == status_code
            && r->Err_0.message@ == message@,
{
    if status_code != STATUS_OK {
        return Err(SwitchBotError { status_code, message });
    }
    Ok(body)
}

} // verus!
