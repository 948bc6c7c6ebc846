use vstd::prelude::*;
use vstd::string::StringExecFns;
use crate::text::dec_text;
use crate::text::int_to_string;

verus! {

/// A text wrapped in the escape sequences that make a terminal show it in
/// the colour with the given code.
pub open spec fn colored(color: u8, text: Seq<char>) -> Seq<char> {
    "\u{1B}["@ + dec_text(color as nat) + seq!['m'] + text + "\u{1B}[0m"@
}

/// Writes a text to the output that waits for the host.
pub fn print(out: &mut String, text: &str)
    ensures
        final(out)@ == old(out)@ + text@,
{
    out.append(text);
}

/// Writes a text to the output that waits for the host, in the colour with
/// the given code.
pub fn print_in_color(out: &mut String, color: u8, text: &str)
    ensures
        final(out)@ == old(out)@ + colored(color, text@),
{
    out.append("\u{1B}[");
    let code = int_to_string(color as i64);
    out.append(code.as_str());
    out.push('m');
    out.append(text);
    out.append("\u{1B}[0m");
    assert(out@ =~= old(out)@ + colored(color, text@));
}

} // verus!
