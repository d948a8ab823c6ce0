//! Which dimension is current.
use vstd::prelude::*;
use crate::text::{chars_of, string_of, trim_chars, trimmed};

verus! {

/// The current dimension as the marker file says it: its trimmed text when
/// that is not empty, else the mainline (also when the file could not be
/// read).
pub open spec fn current_dimension_of(content: Option<Seq<char>>) -> Seq<char> {
    match content {
        Some(c) => if trimmed(c).len() > 0 {
            trimmed(c)
        } else {
            "mainline"@
        },
        None => "mainline"@,
    }
}

/// Reads the current dimension from the text of its marker file.
pub fn current_dimension_from(content: Option<&str>) -> (r: String)
    ensures
        r@ == current_dimension_of(crate::text::opt_str_view(content)),
{
    match content {
        Some(c) => {
            let t = trim_chars(&chars_of(c));
            if t.len() > 0 {
                string_of(&t)
            } else {
                String::from_str("mainline")
            }
        },
        None => String::from_str("mainline"),
    }
}

/// The text written into the marker file to make a dimension current.
pub fn current_dimension_text(name: &str) -> (r: String)
    ensures
        r@ == name@ + "\n"@,
{
    let mut s = String::from_str(name);
    s.append("\n");
    s
}

} // verus!
