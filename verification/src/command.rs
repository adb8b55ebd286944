use std::num::ParseIntError;
use std::str::FromStr;
use vstd::prelude::*;
use vstd::utf8::encode_utf8;

verus! {

/// The error type that `FromStr` for `Command` names; parsing a command
/// never produces it.
#[verifier::external_type_specification]
#[verifier::external_body]
pub struct ExParseIntError(ParseIntError);

/// One choice of the interactive menu: `1` exports a DXF drawing, `2` a
/// PLY mesh, `3` leaves the program; any other input is `Unknown`.
#[derive(Debug, PartialEq, Eq, Structural)]
pub enum Command {
    ExportDxf,
    ExportPly,
    Exit,
    Unknown,
}

/// The command that a line of menu input (already trimmed) selects.
pub open spec fn command_for(input: Seq<char>) -> Command {
    if input == seq!['1'] {
        Command::ExportDxf
    } else if input == seq!['2'] {
        Command::ExportPly
    } else if input == seq!['3'] {
        Command::Exit
    } else {
        Command::Unknown
    }
}

/// Each menu command is chosen by exactly one input: `1` exports a DXF
/// drawing, `2` a PLY mesh, `3` leaves; every other input, including every
/// other digit, is unknown and leaves the menu where it is.
pub proof fn lemma_menu_choices(input: Seq<char>)
    ensures
        (command_for(input) == Command::ExportDxf) <==> input == seq!['1'],
        (command_for(input) == Command::ExportPly) <==> input == seq!['2'],
        (command_for(input) == Command::Exit) <==> input == seq!['3'],
        (command_for(input) == Command::Unknown) <==> (input != seq!['1'] && input != seq!['2']
            && input != seq!['3']),
{
    assert(seq!['1'][0] != seq!['2'][0]);
    assert(seq!['1'][0] != seq!['3'][0]);
    assert(seq!['2'][0] != seq!['3'][0]);
}

/// A one-character ASCII string is encoded as the single byte of its code.
proof fn lemma_encode_single_ascii(c: char)
    requires
        (c as u32) < 0x80,
    ensures
        encode_utf8(seq![c]) == seq![c as u8],
{
    let u = c as u32;
    assert(((u & 0x7F) as u8) == (u as u8)) by (bit_vector)
        requires
            u < 0x80,
    ;
    assert(seq![c].drop_first() =~= Seq::<char>::empty());
    assert(encode_utf8(seq![c].drop_first()) =~= Seq::<u8>::empty());
    assert(encode_utf8(seq![c]) =~= seq![c as u8]);
}

/// Two strings with the same UTF-8 encoding are the same string.
proof fn lemma_encode_injective(a: Seq<char>, b: Seq<char>)
    requires
        encode_utf8(a) == encode_utf8(b),
    ensures
        a == b,
{
    vstd::utf8::encode_utf8_decode_utf8(a);
    vstd::utf8::encode_utf8_decode_utf8(b);
}

impl Command {
    /// Selects the command for a line of menu input; every input selects
    /// exactly one command, so parsing never fails.
    pub fn from_input(s: &str) -> (c: Command)
        ensures
            c == command_for(s@),
            (c == Command::ExportDxf) <==> s@ == seq!['1'],
            (c == Command::ExportPly) <==> s@ == seq!['2'],
            (c == Command::Exit) <==> s@ == seq!['3'],
            (c == Command::Unknown) <==> (s@ != seq!['1'] && s@ != seq!['2'] && s@ != seq!['3']),
    {
        proof {
            lemma_menu_choices(s@);
        }
        let b = s.as_bytes();
        proof {
            lemma_encode_single_ascii('1');
            lemma_encode_single_ascii('2');
            lemma_encode_single_ascii('3');
            assert(b@ == encode_utf8(s@));
        }
        if b.len() == 1 {
            let first = b[0];
            if first == 49 {
                proof {
                    assert(b@ =~= seq!['1' as u8]);
                    lemma_encode_injective(s@, seq!['1']);
                }
                return Command::ExportDxf;
            }
            if first == 50 {
                proof {
                    assert(b@ =~= seq!['2' as u8]);
                    lemma_encode_injective(s@, seq!['2']);
                }
                return Command::ExportPly;
            }
            if first == 51 {
                proof {
                    assert(b@ =~= seq!['3' as u8]);
                    lemma_encode_injective(s@, seq!['3']);
                }
                return Command::Exit;
            }
        }
        Command::Unknown
    }
}

impl FromStr for Command {
    type Err = ParseIntError;

    /// Parsing never fails: the result is the command that the input selects.
    fn from_str(s: &str) -> (r: Result<Self, Self::Err>)
        ensures
            r matches Ok(c) && c == command_for(s@),
    {
        Ok(Command::from_input(s))
    }
}

} // verus!
