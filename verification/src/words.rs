//! What the bot says in words, where the words follow a rule: how a setup's
//! buttons are labelled, how pictures in a group are named, and the message
//! that says which pairs stopped being watched.

use vstd::prelude::*;

use crate::text::{chars_of, decimal, decimal_of, digits, digits_of, text_of};

verus! {

/// The question under a setup: the setup's sentence, in bold, then the
/// question. **Named, so a tap can never land on the wrong setup.**
pub open spec fn question(sentence: Seq<char>) -> Seq<char> {
    "<b>"@ + sentence + "</b>\n\nDid you take it?"@
}

/// The question under a setup.
pub fn ask_words(sentence: &str) -> (words: String)
    ensures
        words@ == question(sentence@),
{
    let mut out = chars_of("<b>");
    let mut middle = chars_of(sentence);
    let mut end = chars_of("</b>\n\nDid you take it?");
    out.append(&mut middle);
    out.append(&mut end);
    text_of(out.as_slice())
}

/// What a button hands back when tapped: which answer, and **the signal's
/// row id**, the only thing that identifies which card he pressed.
pub open spec fn label_of(took: bool, signal_id: int) -> Seq<char> {
    (if took { "label:took:"@ } else { "label:skipped:"@ }) + decimal(signal_id)
}

/// What a button hands back when tapped.
pub fn label(took: bool, signal_id: i64) -> (data: String)
    ensures
        data@ == label_of(took, signal_id as int),
{
    let mut out = if took { chars_of("label:took:") } else { chars_of("label:skipped:") };
    let mut id = decimal_of(signal_id);
    out.append(&mut id);
    text_of(out.as_slice())
}

/// The name a picture goes by in a group: `photo` and its place.
pub open spec fn photo_called(position: nat) -> Seq<char> {
    "photo"@ + digits(position)
}

/// The name a picture goes by in a group.
pub fn photo_name(position: usize) -> (name: String)
    ensures
        name@ == photo_called(position as nat),
{
    let mut out = chars_of("photo");
    let mut at = digits_of(position as u128);
    out.append(&mut at);
    text_of(out.as_slice())
}

/// One retired pair, as it is listed: its name in bold, and why in italics.
pub open spec fn retired_line(entry: (Seq<char>, Seq<char>)) -> Seq<char> {
    "\u{2022} <b>"@ + entry.0 + "</b> \u{2014} <i>"@ + entry.1 + "</i>"@
}

/// Every retired pair, one to a line.
pub open spec fn retired_list(gone: Seq<(Seq<char>, Seq<char>)>) -> Seq<char>
    decreases gone.len(),
{
    if gone.len() == 0 {
        Seq::empty()
    } else if gone.len() == 1 {
        retired_line(gone[0])
    } else {
        retired_list(gone.drop_last()) + seq!['\n'] + retired_line(gone.last())
    }
}

/// **He is told on Telegram** which pairs stopped being watched, why, and
/// how to get one back: one pair or several, said properly.
pub open spec fn retired_message(gone: Seq<(Seq<char>, Seq<char>)>) -> Seq<char> {
    let one = gone.len() == 1;
    "\u{26a0}\u{fe0f} <b>Stopped watching "@ + digits(gone.len()) + " pair"@ + (if one {
        Seq::<char>::empty()
    } else {
        seq!['s']
    }) + ".</b>\n\n"@ + retired_list(gone) + "\n\nIBKR has no instrument by "@ + (if one {
        "that"@
    } else {
        "those"@
    }) + " name, so nothing could ever have been reported. The levels are <b>not lost</b> \u{2014} send <b>/restore</b> to put one back, or add it again under the right spelling."@
}

/// The pairs as plain values.
pub open spec fn plain(gone: Seq<(String, String)>) -> Seq<(Seq<char>, Seq<char>)> {
    gone.map_values(|e: (String, String)| (e.0@, e.1@))
}

/// The message saying which pairs were retired: `(name, why)` for each.
pub fn retired_words(gone: &[(String, String)]) -> (words: String)
    ensures
        words@ == retired_message(plain(gone@)),
{
    let ghost all = plain(gone@);
    let mut list: Vec<char> = Vec::new();
    let mut i: usize = 0;
    while i < gone.len()
        invariant
            0 <= i <= gone@.len(),
            all == plain(gone@),
            list@ == retired_list(all.take(i as int)),
        decreases gone@.len() - i,
    {
        assert(all.take(i + 1).drop_last() == all.take(i as int));
        if i > 0 {
            list.push('\n');
        }
        let mut line = chars_of("\u{2022} <b>");
        let mut name = chars_of(gone[i].0.as_str());
        let mut middle = chars_of("</b> \u{2014} <i>");
        let mut why = chars_of(gone[i].1.as_str());
        let mut end = chars_of("</i>");
        line.append(&mut name);
        line.append(&mut middle);
        line.append(&mut why);
        line.append(&mut end);
        assert(line@ == retired_line(all[i as int]));
        list.append(&mut line);
        proof {
            if i == 0 {
                assert(list@ =~= retired_list(all.take(1)));
            } else {
                assert(list@ =~= retired_list(all.take(i as int)) + seq!['\n'] + retired_line(all[i as int]));
            }
        }
        i = i + 1;
    }
    assert(all.take(gone@.len() as int) == all);

    let one = gone.len() == 1;
    let mut out = chars_of("\u{26a0}\u{fe0f} <b>Stopped watching ");
    let mut count = digits_of(gone.len() as u128);
    out.append(&mut count);
    let mut pair = chars_of(" pair");
    out.append(&mut pair);
    if !one {
        out.push('s');
    }
    let mut close = chars_of(".</b>\n\n");
    out.append(&mut close);
    out.append(&mut list);
    let mut by = chars_of("\n\nIBKR has no instrument by ");
    out.append(&mut by);
    let mut which = if one { chars_of("that") } else { chars_of("those") };
    out.append(&mut which);
    let mut rest = chars_of(
        " name, so nothing could ever have been reported. The levels are <b>not lost</b> \u{2014} send <b>/restore</b> to put one back, or add it again under the right spelling.",
    );
    out.append(&mut rest);
    assert(out@ =~= retired_message(all));
    text_of(out.as_slice())
}

} // verus!
