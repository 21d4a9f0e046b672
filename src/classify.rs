use vstd::prelude::*;

verus! {

/// The bytes before the first space, or all of them.
pub open spec fn first_word(line: Seq<u8>) -> Seq<u8> {
    line.take(first_space(line, 0))
}

/// The index of the first space at or after `i`, or the length.
pub open spec fn first_space(line: Seq<u8>, i: int) -> int
    decreases line.len() - i,
{
    if i < 0 || i >= line.len() {
        line.len() as int
    } else if line[i] == 32 {
        i
    } else {
        first_space(line, i + 1)
    }
}

fn word_end(line: &[u8]) -> (r: usize)
    ensures
        r == first_space(line@, 0),
        r <= line@.len(),
{
    let mut i: usize = 0;
    while i < line.len() && line[i] != 32
        invariant
            i <= line@.len(),
            first_space(line@, 0) == first_space(line@, i as int),
        decreases line@.len() - i,
    {
        i = i + 1;
    }
    i
}

fn word_is(line: &[u8], end: usize, word: &[u8]) -> (r: bool)
    requires
        end <= line@.len(),
    ensures
        r == (line@.take(end as int) == word@),
{
    if end != word.len() {
        return false;
    }
    let mut i: usize = 0;
    while i < end
        invariant
            end <= line@.len(),
            end == word@.len(),
            i <= end,
            forall|j: int| 0 <= j < i ==> line@[j] == word@[j],
        decreases end - i,
    {
        if line[i] != word[i] {
            assert(line@.take(end as int)[i as int] != word@[i as int]);
            return false;
        }
        i = i + 1;
    }
    assert(line@.take(end as int) =~= word@);
    true
}

/// The commands to an engine whose acknowledgement is tracked.
#[derive(Clone, Copy, PartialEq, Eq, Structural, Debug)]
pub enum ClientCommand {
    Uci,
    Isready,
    Go,
    Stop,
}

pub open spec fn client_command_spec(line: Seq<u8>) -> Option<ClientCommand> {
    let w = first_word(line);
    if w == seq![117u8, 99, 105] {
        Some(ClientCommand::Uci)
    } else if w == seq![105u8, 115, 114, 101, 97, 100, 121] {
        Some(ClientCommand::Isready)
    } else if w == seq![103u8, 111] {
        Some(ClientCommand::Go)
    } else if w == seq![115u8, 116, 111, 112] {
        Some(ClientCommand::Stop)
    } else {
        None
    }
}

impl ClientCommand {
    /// The kind of a raw line sent to an engine, by its first word.
    pub fn classify(line: &[u8]) -> (r: Option<ClientCommand>)
        ensures
            r == client_command_spec(line@),
    {
        let end = word_end(line);
        let uci: [u8; 3] = [117, 99, 105];
        let isready: [u8; 7] = [105, 115, 114, 101, 97, 100, 121];
        let go: [u8; 2] = [103, 111];
        let stop: [u8; 4] = [115, 116, 111, 112];
        assert(uci@ =~= seq![117u8, 99, 105]);
        assert(isready@ =~= seq![105u8, 115, 114, 101, 97, 100, 121]);
        assert(go@ =~= seq![103u8, 111]);
        assert(stop@ =~= seq![115u8, 116, 111, 112]);
        if word_is(line, end, &uci) {
            Some(ClientCommand::Uci)
        } else if word_is(line, end, &isready) {
            Some(ClientCommand::Isready)
        } else if word_is(line, end, &go) {
            Some(ClientCommand::Go)
        } else if word_is(line, end, &stop) {
            Some(ClientCommand::Stop)
        } else {
            None
        }
    }
}

/// The lines from an engine that settle an acknowledgement.
#[derive(Clone, Copy, PartialEq, Eq, Structural, Debug)]
pub enum EngineCommand {
    Uciok,
    Readyok,
    Bestmove,
    Info,
}

pub open spec fn engine_command_spec(line: Seq<u8>) -> Option<EngineCommand> {
    let w = first_word(line);
    if w == seq![117u8, 99, 105, 111, 107] {
        Some(EngineCommand::Uciok)
    } else if w == seq![114u8, 101, 97, 100, 121, 111, 107] {
        Some(EngineCommand::Readyok)
    } else if w == seq![98u8, 101, 115, 116, 109, 111, 118, 101] {
        Some(EngineCommand::Bestmove)
    } else if w == seq![105u8, 110, 102, 111] {
        Some(EngineCommand::Info)
    } else {
        None
    }
}

impl EngineCommand {
    /// The kind of a raw line sent by an engine, by its first word.
    pub fn classify(line: &[u8]) -> (r: Option<EngineCommand>)
        ensures
            r == engine_command_spec(line@),
    {
        let end = word_end(line);
        let uciok: [u8; 5] = [117, 99, 105, 111, 107];
        let readyok: [u8; 7] = [114, 101, 97, 100, 121, 111, 107];
        let bestmove: [u8; 8] = [98, 101, 115, 116, 109, 111, 118, 101];
        let info: [u8; 4] = [105, 110, 102, 111];
        assert(uciok@ =~= seq![117u8, 99, 105, 111, 107]);
        assert(readyok@ =~= seq![114u8, 101, 97, 100, 121, 111, 107]);
        assert(bestmove@ =~= seq![98u8, 101, 115, 116, 109, 111, 118, 101]);
        assert(info@ =~= seq![105u8, 110, 102, 111]);
        if word_is(line, end, &uciok) {
            Some(EngineCommand::Uciok)
        } else if word_is(line, end, &readyok) {
            Some(EngineCommand::Readyok)
        } else if word_is(line, end, &bestmove) {
            Some(EngineCommand::Bestmove)
        } else if word_is(line, end, &info) {
            Some(EngineCommand::Info)
        } else {
            None
        }
    }
}

} // verus!
