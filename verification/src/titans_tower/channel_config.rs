use vstd::prelude::*;
use super::error::TowerError;
use crate::text::{
    int_error_message, parse_u64, parse_u64_spec, push_str, slice_chars, trim, trimmed,
    IntErrorKind,
};

verus! {

broadcast use vstd::string::group_string_axioms;

/// The environment variable that lists the Discord channels.
pub const DISCORD_CHANNELS_ENV: &'static str = "NARA_DISCORD_CHANNELS";

/// `str::split(sep)`: the pieces between separators, empty ones included
/// (an empty text is one empty piece).
pub open spec fn split_pieces(s: Seq<char>, sep: char) -> Seq<Seq<char>>
    decreases s.len(),
{
    if s.len() == 0 {
        seq![seq![]]
    } else {
        let r = split_pieces(s.drop_last(), sep);
        if s.last() == sep {
            r.push(seq![])
        } else {
            r.update(r.len() - 1, r.last().push(s.last()))
        }
    }
}

pub proof fn lemma_split_pieces_nonempty(s: Seq<char>, sep: char)
    ensures
        split_pieces(s, sep).len() >= 1,
    decreases s.len(),
{
    if s.len() > 0 {
        lemma_split_pieces_nonempty(s.drop_last(), sep);
    }
}

/// `k` is the index of the first `:` of `e`.
pub open spec fn colon_at(e: Seq<char>, k: int) -> bool {
    &&& 0 <= k < e.len()
    &&& e[k] == ':'
    &&& forall|j: int| 0 <= j < k ==> e[j] != ':'
}

pub open spec fn entry_error_message(e: Seq<char>) -> Seq<char> {
    "invalid NARA_DISCORD_CHANNELS entry `"@ + e + "` \u{2014} expected `name:channel_id`"@
}

pub open spec fn id_error_message(e: Seq<char>, kind: IntErrorKind) -> Seq<char> {
    "invalid channel id in NARA_DISCORD_CHANNELS entry `"@ + e + "`: "@ + int_error_message(kind)
}

/// One entry `name:id`: the channel `discord.<name>` (name trimmed) with the
/// id (trimmed, parsed as `u64`), or the message saying what is wrong.
pub open spec fn entry_result(e: Seq<char>) -> Result<(Seq<char>, u64), Seq<char>> {
    if exists|k: int| colon_at(e, k) {
        let k = choose|k: int| colon_at(e, k);
        match parse_u64_spec(trimmed(e.skip(k + 1))) {
            Ok(id) => Ok(("discord."@ + trimmed(e.take(k)), id)),
            Err(kind) => Err(id_error_message(e, kind)),
        }
    } else {
        Err(entry_error_message(e))
    }
}

/// A piece between commas: nothing when it is blank, else its trimmed entry.
pub open spec fn piece_result(p: Seq<char>) -> Option<Result<(Seq<char>, u64), Seq<char>>> {
    if trimmed(p).len() == 0 {
        None
    } else {
        Some(entry_result(trimmed(p)))
    }
}

/// The entries of the pieces in order, or the first piece's error.
pub open spec fn parse_pieces(p: Seq<Seq<char>>) -> Result<Seq<(Seq<char>, u64)>, Seq<char>>
    decreases p.len(),
{
    if p.len() == 0 {
        Ok(seq![])
    } else {
        match parse_pieces(p.drop_last()) {
            Err(m) => Err(m),
            Ok(done) => match piece_result(p.last()) {
                None => Ok(done),
                Some(Ok(x)) => Ok(done.push(x)),
                Some(Err(m)) => Err(m),
            },
        }
    }
}

/// The pieces of a prefix of the text, but for the last (which the rest of the
/// text may extend), are the first pieces of the whole text.
proof fn lemma_split_prefix(s: Seq<char>, j: int, sep: char)
    requires
        0 <= j <= s.len(),
    ensures
        split_pieces(s.take(j), sep).len() <= split_pieces(s, sep).len(),
        split_pieces(s, sep).take(split_pieces(s.take(j), sep).len() - 1) == split_pieces(
            s.take(j),
            sep,
        ).drop_last(),
    decreases s.len(),
{
    lemma_split_pieces_nonempty(s.take(j), sep);
    if j == s.len() {
        assert(s.take(j) =~= s);
    } else {
        let t = s.drop_last();
        assert(t.take(j) =~= s.take(j));
        lemma_split_prefix(t, j, sep);
        lemma_split_pieces_nonempty(t, sep);
    }
}

/// The entries of the pieces up to the first bad one, and that piece's error
/// when there is one.
pub open spec fn parse_pieces_prefix(p: Seq<Seq<char>>) -> (Seq<(Seq<char>, u64)>, Option<Seq<char>>)
    decreases p.len(),
{
    if p.len() == 0 {
        (seq![], None)
    } else {
        let (done, err) = parse_pieces_prefix(p.drop_last());
        match err {
            Some(m) => (done, Some(m)),
            None => match piece_result(p.last()) {
                None => (done, None),
                Some(Ok(x)) => (done.push(x), None),
                Some(Err(m)) => (done, Some(m)),
            },
        }
    }
}

/// Once a prefix of the pieces fails, the pieces after it do not matter.
proof fn lemma_prefix_err_append(p: Seq<Seq<char>>, q: Seq<Seq<char>>)
    requires
        parse_pieces_prefix(p).1 is Some,
    ensures
        parse_pieces_prefix(p + q) == parse_pieces_prefix(p),
    decreases q.len(),
{
    if q.len() == 0 {
        assert(p + q =~= p);
    } else {
        lemma_prefix_err_append(p, q.drop_last());
        assert((p + q).drop_last() =~= p + q.drop_last());
    }
}

/// Reading all the pieces succeeds exactly when no piece is bad, and then gives
/// the entries read; else it fails with the first bad piece's error.
proof fn lemma_prefix_agrees(p: Seq<Seq<char>>)
    ensures
        parse_pieces(p) == match parse_pieces_prefix(p) {
            (v, None) => Ok::<Seq<(Seq<char>, u64)>, Seq<char>>(v),
            (_, Some(m)) => Err::<Seq<(Seq<char>, u64)>, Seq<char>>(m),
        },
    decreases p.len(),
{
    if p.len() > 0 {
        lemma_prefix_agrees(p.drop_last());
    }
}

/// The channels declared before the first malformed entry of a configuration,
/// and that entry's error.
pub open spec fn channel_config_prefix(spec: Seq<char>) -> (Seq<(Seq<char>, u64)>, Option<Seq<char>>) {
    parse_pieces_prefix(split_pieces(spec, ','))
}

/// The channels that a configuration `name:id,name:id,...` declares.
pub open spec fn channel_config(spec: Seq<char>) -> Result<Seq<(Seq<char>, u64)>, Seq<char>> {
    parse_pieces(split_pieces(spec, ','))
}

pub open spec fn entries_view(v: Seq<(String, u64)>) -> Seq<(Seq<char>, u64)> {
    v.map_values(|p: (String, u64)| (p.0@, p.1))
}

/// Reads one entry `name:id`.
fn parse_entry(e: &str) -> (r: Result<(String, u64), String>)
    ensures
        match r {
            Ok(p) => entry_result(e@) == Ok::<(Seq<char>, u64), Seq<char>>((p.0@, p.1)),
            Err(m) => entry_result(e@) == Err::<(Seq<char>, u64), Seq<char>>(m@),
        },
{
    let n = e.unicode_len();
    let mut k: usize = 0;
    while k < n && e.get_char(k) != ':'
        invariant
            n == e@.len(),
            k <= n,
            forall|j: int| 0 <= j < k ==> e@[j] != ':',
        decreases n - k,
    {
        k = k + 1;
    }
    if k == n {
        assert(!exists|j: int| colon_at(e@, j));
        let mut m = "invalid NARA_DISCORD_CHANNELS entry `".to_string();
        push_str(&mut m, e);
        push_str(&mut m, "` \u{2014} expected `name:channel_id`");
        return Err(m);
    }
    assert(colon_at(e@, k as int));
    assert(forall|j: int| colon_at(e@, j) ==> j == k);
    let raw_name = slice_chars(e, 0, k);
    let raw_id = slice_chars(e, k + 1, n);
    assert(raw_name@ =~= e@.take(k as int));
    assert(raw_id@ =~= e@.skip(k as int + 1));
    let id_text = trim(raw_id.as_str());
    match parse_u64(id_text.as_str()) {
        Ok(id) => {
            let mut name = "discord.".to_string();
            let trimmed_name = trim(raw_name.as_str());
            push_str(&mut name, trimmed_name.as_str());
            Ok((name, id))
        },
        Err(kind) => {
            let mut m = "invalid channel id in NARA_DISCORD_CHANNELS entry `".to_string();
            push_str(&mut m, e);
            push_str(&mut m, "`: ");
            let why = kind.message();
            push_str(&mut m, why.as_str());
            Err(m)
        },
    }
}

/// Adds the entry of one piece to `out`, when the piece is not blank.
fn take_piece(out: &mut Vec<(String, u64)>, piece: &str) -> (r: Result<(), String>)
    ensures
        match piece_result(piece@) {
            None => r is Ok && final(out)@ == old(out)@,
            Some(Ok(x)) => r is Ok && entries_view(final(out)@) == entries_view(old(out)@).push(x),
            Some(Err(m)) => r matches Err(msg) && msg@ == m && final(out)@ == old(out)@,
        },
{
    let entry = trim(piece);
    if entry.as_str().unicode_len() == 0 {
        return Ok(());
    }
    match parse_entry(entry.as_str()) {
        Ok(p) => {
            let ghost before = out@;
            out.push(p);
            assert(entries_view(out@) =~= entries_view(before).push((p.0@, p.1)));
            Ok(())
        },
        Err(m) => Err(m),
    }
}

/// Reads the channel configuration `name:channel_id,name:channel_id,...` up
/// to its first malformed entry: the channels of the entries before it (blank
/// entries skipped, each other one the channel `discord.<name>` with its id),
/// and the error of that entry when there is one.
pub fn parse_channel_config_prefix(spec: &str) -> (r: (Vec<(String, u64)>, Option<TowerError>))
    ensures
        entries_view(r.0@) == channel_config_prefix(spec@).0,
        match r.1 {
            None => channel_config_prefix(spec@).1 is None,
            Some(TowerError::ChannelConfig(m)) => channel_config_prefix(spec@).1 == Some(m@),
        },
{
    let n = spec.unicode_len();
    let ghost s = spec@;
    let mut out: Vec<(String, u64)> = Vec::new();
    let mut start: usize = 0;
    let mut i: usize = 0;
    let ghost mut finished: Seq<Seq<char>> = seq![];
    assert(s.take(0) =~= Seq::<char>::empty());
    assert(s.subrange(0, 0) =~= Seq::<char>::empty());
    assert(entries_view(out@) =~= Seq::<(Seq<char>, u64)>::empty());
    while i < n
        invariant
            n == s.len(),
            s == spec@,
            start <= i <= n,
            split_pieces(s.take(i as int), ',') == finished.push(s.subrange(start as int, i as int)),
            parse_pieces_prefix(finished) == (entries_view(out@), None::<Seq<char>>),
        decreases n - i,
    {
        let c = spec.get_char(i);
        proof {
            assert(s.take(i + 1).drop_last() =~= s.take(i as int));
            assert(s.take(i + 1).last() == c);
        }
        if c == ',' {
            let piece = slice_chars(spec, start, i);
            let ghost before = finished;
            match take_piece(&mut out, piece.as_str()) {
                Ok(()) => {},
                Err(m) => {
                    proof {
                        let next = before.push(piece@);
                        assert(next.drop_last() =~= before);
                        let whole = split_pieces(s, ',');
                        let pre = split_pieces(s.take(i + 1), ',');
                        assert(pre =~= next.push(seq![]));
                        lemma_split_prefix(s, i + 1, ',');
                        assert(pre.drop_last() =~= next);
                        assert(whole =~= next + whole.skip(next.len() as int));
                        lemma_prefix_err_append(next, whole.skip(next.len() as int));
                    }
                    return (out, Some(TowerError::ChannelConfig(m)));
                },
            }
            proof {
                finished = before.push(piece@);
                assert(finished.drop_last() =~= before);
                assert(s.subrange(i + 1, i + 1) =~= Seq::<char>::empty());
            }
            start = i + 1;
        } else {
            proof {
                assert(s.subrange(start as int, i + 1) =~= s.subrange(start as int, i as int).push(c));
                assert(finished.push(s.subrange(start as int, i as int)).update(
                    finished.len() as int,
                    s.subrange(start as int, i as int).push(c),
                ) =~= finished.push(s.subrange(start as int, i + 1)));
            }
        }
        i = i + 1;
    }
    assert(s.take(n as int) =~= s);
    let last = slice_chars(spec, start, n);
    let ghost all = finished.push(last@);
    assert(all.drop_last() =~= finished);
    match take_piece(&mut out, last.as_str()) {
        Ok(()) => (out, None),
        Err(m) => (out, Some(TowerError::ChannelConfig(m))),
    }
}

/// Reads the channel configuration `name:channel_id,name:channel_id,...`:
/// blank entries are skipped, every other entry becomes the channel
/// `discord.<name>` with its id; the first malformed entry is reported.
pub fn parse_channel_config(spec: &str) -> (r: Result<Vec<(String, u64)>, TowerError>)
    ensures
        match r {
            Ok(v) => channel_config(spec@) == Ok::<Seq<(Seq<char>, u64)>, Seq<char>>(
                entries_view(v@),
            ),
            Err(TowerError::ChannelConfig(m)) => channel_config(spec@) == Err::<
                Seq<(Seq<char>, u64)>,
                Seq<char>,
            >(m@),
        },
{
    let (entries, err) = parse_channel_config_prefix(spec);
    proof {
        lemma_prefix_agrees(split_pieces(spec@, ','));
    }
    match err {
        None => Ok(entries),
        Some(e) => Err(e),
    }
}


proof fn lemma_parse_pieces_prefixed(p: Seq<Seq<char>>)
    ensures
        parse_pieces(p) matches Ok(v) ==> forall|i: int|
            0 <= i < v.len() ==> (#[trigger] v[i]).0.len() >= 8 && v[i].0.take(8) == "discord."@,
    decreases p.len(),
{
    reveal_strlit("discord.");
    if p.len() > 0 {
        lemma_parse_pieces_prefixed(p.drop_last());
        if let Ok(done) = parse_pieces(p.drop_last()) {
            if let Some(Ok(x)) = piece_result(p.last()) {
                let e = trimmed(p.last());
                let k = choose|k: int| colon_at(e, k);
                let name = "discord."@ + trimmed(e.take(k));
                assert(name.take(8) =~= "discord."@);
                let v = done.push(x);
                assert forall|i: int| 0 <= i < v.len() implies (#[trigger] v[i]).0.len() >= 8
                    && v[i].0.take(8) == "discord."@ by {
                    if i < done.len() {
                        assert(v[i] == done[i]);
                    }
                }
            }
        }
    }
}

/// Every channel a configuration declares is named `discord.<name>`.
pub proof fn lemma_config_names_prefixed(spec: Seq<char>)
    ensures
        channel_config(spec) matches Ok(v) ==> forall|i: int|
            0 <= i < v.len() ==> (#[trigger] v[i]).0.len() >= 8 && v[i].0.take(8) == "discord."@,
{
    lemma_parse_pieces_prefixed(split_pieces(spec, ','));
}

} // verus!
