use vstd::prelude::*;

verus! {

/// Relies on `String::push_str`: the string slice is appended at the end.
pub assume_specification[ std::string::String::push_str ](s: &mut String, string: &str)
    ensures
        final(s)@ == old(s)@ + string@,
;

/// Relies on `String::push`: the character is appended at the end.
pub assume_specification[ std::string::String::push ](s: &mut String, ch: char)
    ensures
        final(s)@ == old(s)@.push(ch),
;

} // verus!
