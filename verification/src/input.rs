//! Line editing for the selection prompt.
//!
//! The console yields one printable key at a time. A carriage return ends
//! the line, a backspace removes the newest character if there is one, and
//! every other printable key is appended. The keyboard waiting and echoing
//! around these decisions belong to the console service, not here.

use vstd::prelude::*;

verus! {

/// Applies one printable key to the line being edited. Returns whether the
/// line is finished.
pub fn apply_key(buffer: &mut Vec<char>, key: char) -> (done: bool)
    ensures
        key == '\r' ==> done && final(buffer)@ == old(buffer)@,
        key == '\u{8}' ==> !done && final(buffer)@ == (if old(buffer)@.len() > 0 {
            old(buffer)@.drop_last()
        } else {
            old(buffer)@
        }),
        (key != '\r' && key != '\u{8}') ==> !done && final(buffer)@ == old(buffer)@.push(key),
{
    if key == '\r' {
        true
    } else if key == '\u{8}' {
        let _ = buffer.pop();
        proof {
            if old(buffer)@.len() > 0 {
                assert(buffer@ =~= old(buffer)@.drop_last());
            }
        }
        false
    } else {
        buffer.push(key);
        false
    }
}

} // verus!
