use vstd::prelude::*;
use crate::text::{push_str, str_eq};

verus! {

/// Whether a command was invoked in the guild channel called `name`
/// (`channel_name` is `None` outside a guild channel).
pub fn in_required_channel(channel_name: Option<&str>, name: &str) -> (b: bool)
    ensures
        b == (channel_name matches Some(c) && c@ == name@),
{
    match channel_name {
        Some(c) => str_eq(c, name),
        None => false,
    }
}

/// The hint sent when a command is used outside its channel.
pub fn wrong_channel_hint(name: &str) -> (r: String)
    ensures
        r@ == "This command can only be used in #"@ + name@ + "."@,
{
    let mut r = "This command can only be used in #".to_string();
    push_str(&mut r, name);
    push_str(&mut r, ".");
    r
}

/// The pins to remove before pinning a fresh message: the positions, in
/// order, of the pins written by the bot.
pub fn pins_to_unpin(authors: &Vec<u64>, bot_id: u64) -> (r: Vec<usize>)
    ensures
        forall|k: int| 0 <= k < r@.len() ==> r@[k] < authors@.len() && authors@[r@[k] as int] == bot_id,
        forall|k: int, l: int| 0 <= k < l < r@.len() ==> r@[k] < r@[l],
        forall|i: int| 0 <= i < authors@.len() && authors@[i] == bot_id ==> r@.contains(i as usize),
{
    let mut r: Vec<usize> = Vec::new();
    let mut i: usize = 0;
    while i < authors.len()
        invariant
            i <= authors@.len(),
            forall|k: int| 0 <= k < r@.len() ==> r@[k] < i && authors@[r@[k] as int] == bot_id,
            forall|k: int, l: int| 0 <= k < l < r@.len() ==> r@[k] < r@[l],
            forall|j: int| 0 <= j < i && authors@[j] == bot_id ==> r@.contains(j as usize),
        decreases authors@.len() - i,
    {
        if authors[i] == bot_id {
            let ghost before = r@;
            r.push(i);
            assert forall|j: int| 0 <= j < i + 1 && authors@[j] == bot_id implies r@.contains(
                j as usize,
            ) by {
                if j == i {
                    assert(r@[r@.len() - 1] == i);
                } else {
                    let k = choose|k: int| 0 <= k < before.len() && before[k] == j as usize;
                    assert(r@[k] == j as usize);
                }
            }
        }
        i = i + 1;
    }
    r
}

} // verus!
