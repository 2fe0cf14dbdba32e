//! Small helpers shared by the components: shortening long paths for
//! a progress display, character-to-byte positions, and sending text
//! to the user-interface thread over a channel.

use vstd::prelude::*;

verus! {

/// The thread name that accompanies a progress line.
pub type ThreadName = String;

#[verifier::external_type_specification]
#[verifier::external_body]
#[verifier::reject_recursive_types(T)]
pub struct ExSender<T>(std::sync::mpsc::Sender<T>);

/// Sends one line of text to the user-interface thread.
///
/// Relies on `std::sync::mpsc::Sender::send`.  The result of the send
/// is dropped: when the receiving end is gone there is no interface
/// left to tell.
#[verifier::external_body]
pub fn println_to_ui_thread(ui_tx: &std::sync::mpsc::Sender<String>, string: String) {
    let _ = ui_tx.send(string);
}

/// Sends one line of text, tagged with a thread name, to the
/// user-interface thread.
///
/// Relies on `std::sync::mpsc::Sender::send`, as above.
#[verifier::external_body]
pub fn println_to_ui_thread_with_thread_name(
    ui_tx: &std::sync::mpsc::Sender<(String, ThreadName)>,
    string: String,
    thread_name: &str,
) {
    let _ = ui_tx.send((string, thread_name.to_string()));
}

/// Byte length of one character in UTF-8.
pub open spec fn utf8_len(c: char) -> int {
    if (c as int) < 0x80 {
        1
    } else if (c as int) < 0x800 {
        2
    } else if (c as int) < 0x10000 {
        3
    } else {
        4
    }
}

/// Byte length of the UTF-8 encoding of the first `n` characters.
pub open spec fn utf8_prefix_len(s: Seq<char>, n: int) -> int
    decreases n,
{
    if n <= 0 {
        0
    } else {
        utf8_prefix_len(s, n - 1) + utf8_len(s[n - 1])
    }
}

/// The byte position where character `char_pos` starts: string slices
/// count bytes, not characters, so a multi-byte character makes the
/// two positions differ.
pub fn byte_pos_from_chars(text: &str, char_pos: usize) -> (r: usize)
    requires
        char_pos < text@.len(),
        utf8_prefix_len(text@, char_pos as int) <= usize::MAX,
    ensures
        r as int == utf8_prefix_len(text@, char_pos as int),
{
    let mut pos: usize = 0;
    let mut i: usize = 0;
    while i < char_pos
        invariant
            0 <= i <= char_pos < text@.len(),
            pos as int == utf8_prefix_len(text@, i as int),
            utf8_prefix_len(text@, char_pos as int) <= usize::MAX,
        decreases char_pos - i,
    {
        proof {
            lemma_utf8_prefix_len_monotonic(text@, i as int + 1, char_pos as int);
        }
        let c = text.get_char(i);
        let v = c as u32;
        let step: usize = if v < 0x80 {
            1
        } else if v < 0x800 {
            2
        } else if v < 0x10000 {
            3
        } else {
            4
        };
        pos = pos + step;
        i = i + 1;
    }
    pos
}

/// The prefix byte length grows with the prefix.
proof fn lemma_utf8_prefix_len_monotonic(s: Seq<char>, a: int, b: int)
    requires
        0 <= a <= b,
    ensures
        utf8_prefix_len(s, a) <= utf8_prefix_len(s, b),
    decreases b - a,
{
    if a < b {
        lemma_utf8_prefix_len_monotonic(s, a, b - 1);
    }
}

/// Shortens a long path for the screen: when the text has more
/// characters than fit, keep a little under half of them from each
/// end and put an ellipsis in between.  Text that already fits is
/// returned unchanged, whatever the limit; a limit below four is
/// ruled out only where truncation would actually happen.
pub fn shorten_string(text: &str, x_max_char: u16) -> (r: String)
    requires
        x_max_char >= 4 || text@.len() <= x_max_char,
    ensures
        text@.len() <= x_max_char ==> r@ == text@,
        text@.len() > x_max_char ==> r@ =~~= text@.subrange(0, x_max_char as int / 2 - 2)
            + "..."@ + text@.subrange(
            text@.len() - (x_max_char as int / 2 - 2),
            text@.len() as int,
        ),
{
    let n = text.unicode_len();
    if n > x_max_char as usize {
        let half = (x_max_char / 2 - 2) as usize;
        let head = text.substring_char(0, half);
        let tail = text.substring_char(n - half, n);
        let mut s = head.to_owned();
        s.append("...");
        s.append(tail);
        s
    } else {
        text.to_owned()
    }
}

} // verus!
