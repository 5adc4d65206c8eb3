//! Decisions of the command-line front end.
use vstd::prelude::*;

verus! {

/// The master password typed for `init`, checked against its
/// confirmation: the two must be the same text.
pub fn confirm_master_password(password: String, confirmation: &str) -> (result: Result<String, String>)
    ensures
        password@ == confirmation@ ==> (result matches Ok(p) && p@ == password@),
        password@ != confirmation@ ==> (result matches Err(e) && e@ == "passwords did not match"@),
{
    if password == confirmation.to_owned() {
        Ok(password)
    } else {
        Err(String::from_str("passwords did not match"))
    }
}

} // verus!
