//! Writing a playback command as the line that `parse_command_line` reads.

use vstd::prelude::*;
use crate::json::{encode_string_list, json_string_list, json_text_of_strings};
use crate::protocol::{
    command_from_line, has_blank, track_list_from, verb_and_payload, CommandModel,
    PlaybackCommand,
};
use crate::text::{
    is_ws, lemma_split_after_word, lemma_split_none, lemma_trim_fixed, lemma_trimmed_ends, owned,
    push_str, trim,
};

verus! {

/// The command line that spells `c`.
pub open spec fn encode_line(c: CommandModel) -> Seq<char> {
    match c {
        CommandModel::Ping => "PING"@,
        CommandModel::Status => "STATUS"@,
        CommandModel::QueueSnapshot => "QUEUE_SNAPSHOT"@,
        CommandModel::HistorySnapshot => "HISTORY_SNAPSHOT"@,
        CommandModel::Play(t) => "PLAY "@ + t,
        CommandModel::QueuePlay(l) => "QUEUE_PLAY "@ + json_text_of_strings(l),
        CommandModel::QueueAppend(t) => "QUEUE_APPEND "@ + t,
        CommandModel::QueueInsertNext(t) => "QUEUE_INSERT_NEXT "@ + t,
        CommandModel::QueueRemove(t) => "QUEUE_REMOVE "@ + t,
        CommandModel::QueueClear => "QUEUE_CLEAR"@,
        CommandModel::QueueReplace(l) => "QUEUE_REPLACE "@ + json_text_of_strings(l),
        CommandModel::Pause => "PAUSE"@,
        CommandModel::Stop => "STOP"@,
        CommandModel::Next => "NEXT"@,
        CommandModel::Prev => "PREV"@,
        CommandModel::PlayHistory(t) => "PLAY_HISTORY "@ + t,
        CommandModel::SetOrderMode(m) => "SET_ORDER_MODE "@ + m,
        CommandModel::SetRepeatMode(m) => "SET_REPEAT_MODE "@ + m,
    }
}

/// A text argument that survives the trip through a command line: not empty,
/// and without whitespace at either end.
pub open spec fn sendable_text(t: Seq<char>) -> bool {
    t.len() > 0 && trim(t) == t
}

/// A command that reads back as itself once encoded: text arguments are
/// sendable, no track id in a list is blank, and modes are ones the parser knows.
pub open spec fn sendable(c: CommandModel) -> bool {
    match c {
        CommandModel::Play(t) => sendable_text(t),
        CommandModel::QueueAppend(t) => sendable_text(t),
        CommandModel::QueueInsertNext(t) => sendable_text(t),
        CommandModel::QueueRemove(t) => sendable_text(t),
        CommandModel::PlayHistory(t) => sendable_text(t),
        CommandModel::QueuePlay(l) => !has_blank(l),
        CommandModel::QueueReplace(l) => !has_blank(l),
        CommandModel::SetOrderMode(m) => m == "sequential"@ || m == "shuffle"@,
        CommandModel::SetRepeatMode(m) => m == "off"@ || m == "one"@ || m == "all"@,
        _ => true,
    }
}


/// A verb without an argument is read back as that verb alone.
proof fn lemma_bare_verb(verb: Seq<char>)
    requires
        verb.len() > 0,
        forall|i: int| 0 <= i < verb.len() ==> 'A' <= #[trigger] verb[i] <= 'Z' || verb[i] == '_',
    ensures
        trim(verb) == verb,
        verb_and_payload(verb) == (verb, None::<Seq<char>>),
{
    lemma_trim_fixed(verb);
    lemma_split_none(verb, ' ');
}

/// `verb + " " + arg`, with an argument whose ends are not whitespace, is its
/// own trim and splits back into `verb` and `arg`.
proof fn lemma_verb_with_arg(verb: Seq<char>, line: Seq<char>, arg: Seq<char>)
    requires
        verb.len() > 0,
        forall|i: int| 0 <= i < verb.len() ==> 'A' <= #[trigger] verb[i] <= 'Z' || verb[i] == '_',
        line == verb + seq![' '] + arg,
        arg.len() > 0,
        !is_ws(arg[0]),
        !is_ws(arg.last()),
    ensures
        trim(line) == line,
        verb_and_payload(line) == (verb, Some(arg)),
{
    assert(line[0] == verb[0]);
    assert(line.last() == arg.last());
    lemma_trim_fixed(line);
    lemma_split_after_word(verb, ' ', arg);
    lemma_trim_fixed(arg);
}

proof fn lemma_text_round_trip(verb: Seq<char>, t: Seq<char>)
    requires
        verb.len() > 0,
        forall|i: int| 0 <= i < verb.len() ==> 'A' <= #[trigger] verb[i] <= 'Z' || verb[i] == '_',
        sendable_text(t),
    ensures
        trim(verb + seq![' '] + t) == verb + seq![' '] + t,
        verb_and_payload(verb + seq![' '] + t) == (verb, Some(t)),
{
    lemma_trimmed_ends(t);
    lemma_verb_with_arg(verb, verb + seq![' '] + t, t);
}

/// An encoded command that is sendable is read back as itself, given that the
/// JSON text of its track list reads back as that list.
proof fn lemma_encode_parses(c: CommandModel)
    requires
        sendable(c),
        forall|l: Seq<Seq<char>>|
            (c == CommandModel::QueuePlay(l) || c == CommandModel::QueueReplace(l)) ==> {
                let j = #[trigger] json_text_of_strings(l);
                &&& json_string_list(j) == Ok::<Seq<Seq<char>>, Seq<char>>(l)
                &&& j.len() >= 2
                &&& j[0] == '['
                &&& j.last() == ']'
            },
    ensures
        command_from_line(encode_line(c)) == Ok::<CommandModel, crate::protocol::ErrorModel>(c),
{
    reveal_strlit("PING");
    reveal_strlit("STATUS");
    reveal_strlit("QUEUE_SNAPSHOT");
    reveal_strlit("HISTORY_SNAPSHOT");
    reveal_strlit("QUEUE_CLEAR");
    reveal_strlit("PAUSE");
    reveal_strlit("STOP");
    reveal_strlit("NEXT");
    reveal_strlit("PREV");
    reveal_strlit("PLAY");
    reveal_strlit("QUEUE_PLAY");
    reveal_strlit("QUEUE_APPEND");
    reveal_strlit("QUEUE_INSERT_NEXT");
    reveal_strlit("QUEUE_REMOVE");
    reveal_strlit("QUEUE_REPLACE");
    reveal_strlit("PLAY_HISTORY");
    reveal_strlit("SET_ORDER_MODE");
    reveal_strlit("SET_REPEAT_MODE");
    reveal_strlit("PLAY ");
    reveal_strlit("QUEUE_PLAY ");
    reveal_strlit("QUEUE_APPEND ");
    reveal_strlit("QUEUE_INSERT_NEXT ");
    reveal_strlit("QUEUE_REMOVE ");
    reveal_strlit("QUEUE_REPLACE ");
    reveal_strlit("PLAY_HISTORY ");
    reveal_strlit("SET_ORDER_MODE ");
    reveal_strlit("SET_REPEAT_MODE ");
    reveal_strlit("sequential");
    reveal_strlit("shuffle");
    reveal_strlit("off");
    reveal_strlit("one");
    reveal_strlit("all");
    match c {
        CommandModel::Ping => {
            lemma_bare_verb("PING"@);
        },
        CommandModel::Status => {
            lemma_bare_verb("STATUS"@);
        },
        CommandModel::QueueSnapshot => {
            lemma_bare_verb("QUEUE_SNAPSHOT"@);
        },
        CommandModel::HistorySnapshot => {
            lemma_bare_verb("HISTORY_SNAPSHOT"@);
        },
        CommandModel::QueueClear => {
            lemma_bare_verb("QUEUE_CLEAR"@);
        },
        CommandModel::Pause => {
            lemma_bare_verb("PAUSE"@);
        },
        CommandModel::Stop => {
            lemma_bare_verb("STOP"@);
        },
        CommandModel::Next => {
            lemma_bare_verb("NEXT"@);
        },
        CommandModel::Prev => {
            lemma_bare_verb("PREV"@);
        },
        CommandModel::Play(t) => {
            assert("PLAY "@ =~= "PLAY"@ + seq![' ']);
            lemma_text_round_trip("PLAY"@, t);
            assert("PLAY"@[1] != "PING"@[1]);
        },
        CommandModel::QueueAppend(t) => {
            assert("QUEUE_APPEND "@ =~= "QUEUE_APPEND"@ + seq![' ']);
            lemma_text_round_trip("QUEUE_APPEND"@, t);
        },
        CommandModel::QueueInsertNext(t) => {
            assert("QUEUE_INSERT_NEXT "@ =~= "QUEUE_INSERT_NEXT"@ + seq![' ']);
            lemma_text_round_trip("QUEUE_INSERT_NEXT"@, t);
        },
        CommandModel::QueueRemove(t) => {
            assert("QUEUE_REMOVE "@ =~= "QUEUE_REMOVE"@ + seq![' ']);
            lemma_text_round_trip("QUEUE_REMOVE"@, t);
            assert("QUEUE_REMOVE"@[6] != "QUEUE_APPEND"@[6]);
        },
        CommandModel::PlayHistory(t) => {
            assert("PLAY_HISTORY "@ =~= "PLAY_HISTORY"@ + seq![' ']);
            lemma_text_round_trip("PLAY_HISTORY"@, t);
        },
        CommandModel::SetOrderMode(m) => {
            assert("SET_ORDER_MODE "@ =~= "SET_ORDER_MODE"@ + seq![' ']);
            lemma_trim_fixed(m);
            lemma_text_round_trip("SET_ORDER_MODE"@, m);
        },
        CommandModel::SetRepeatMode(m) => {
            assert("SET_REPEAT_MODE "@ =~= "SET_REPEAT_MODE"@ + seq![' ']);
            lemma_trim_fixed(m);
            lemma_text_round_trip("SET_REPEAT_MODE"@, m);
        },
        CommandModel::QueuePlay(l) => {
            let j = json_text_of_strings(l);
            assert("QUEUE_PLAY "@ =~= "QUEUE_PLAY"@ + seq![' ']);
            lemma_verb_with_arg("QUEUE_PLAY"@, "QUEUE_PLAY"@ + seq![' '] + j, j);
            assert(track_list_from(json_string_list(j)) == Ok::<Seq<Seq<char>>, crate::protocol::ErrorModel>(l));
        },
        CommandModel::QueueReplace(l) => {
            let j = json_text_of_strings(l);
            assert("QUEUE_REPLACE "@ =~= "QUEUE_REPLACE"@ + seq![' ']);
            lemma_verb_with_arg("QUEUE_REPLACE"@, "QUEUE_REPLACE"@ + seq![' '] + j, j);
            assert(track_list_from(json_string_list(j)) == Ok::<Seq<Seq<char>>, crate::protocol::ErrorModel>(l));
        },
    }
}

fn verb_line(verb: &str, arg: &str) -> (r: String)
    ensures
        r@ == verb@ + arg@,
{
    let mut s = owned(verb);
    push_str(&mut s, arg);
    s
}

impl PlaybackCommand {
    /// The command line for this command. A command whose text arguments have no
    /// whitespace at either end and are not empty, whose track ids are not blank
    /// and whose modes are known reads back as itself.
    pub fn encode(&self) -> (r: String)
        ensures
            r@ == encode_line(self@),
            sendable(self@) ==> command_from_line(r@) == Ok::<CommandModel, crate::protocol::ErrorModel>(self@),
    {
        let r = match self {
            PlaybackCommand::Ping => owned("PING"),
            PlaybackCommand::Status => owned("STATUS"),
            PlaybackCommand::QueueSnapshot => owned("QUEUE_SNAPSHOT"),
            PlaybackCommand::HistorySnapshot => owned("HISTORY_SNAPSHOT"),
            PlaybackCommand::Play(t) => verb_line("PLAY ", t.as_str()),
            PlaybackCommand::QueuePlay(l) => {
                let j = encode_string_list(l);
                verb_line("QUEUE_PLAY ", j.as_str())
            },
            PlaybackCommand::QueueAppend(t) => verb_line("QUEUE_APPEND ", t.as_str()),
            PlaybackCommand::QueueInsertNext(t) => verb_line("QUEUE_INSERT_NEXT ", t.as_str()),
            PlaybackCommand::QueueRemove(t) => verb_line("QUEUE_REMOVE ", t.as_str()),
            PlaybackCommand::QueueClear => owned("QUEUE_CLEAR"),
            PlaybackCommand::QueueReplace(l) => {
                let j = encode_string_list(l);
                verb_line("QUEUE_REPLACE ", j.as_str())
            },
            PlaybackCommand::Pause => owned("PAUSE"),
            PlaybackCommand::Stop => owned("STOP"),
            PlaybackCommand::Next => owned("NEXT"),
            PlaybackCommand::Prev => owned("PREV"),
            PlaybackCommand::PlayHistory(t) => verb_line("PLAY_HISTORY ", t.as_str()),
            PlaybackCommand::SetOrderMode(m) => verb_line("SET_ORDER_MODE ", m.as_str()),
            PlaybackCommand::SetRepeatMode(m) => verb_line("SET_REPEAT_MODE ", m.as_str()),
        };
        proof {
            if sendable(self@) {
                lemma_encode_parses(self@);
            }
        }
        r
    }
}

} // verus!
