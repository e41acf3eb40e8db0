//! The tag-length-value wire protocol that frames moves, errors and session
//! events for transmission between peers.
//!
//! A message is one leading tag byte followed by the variant's payload:
//! Move (tag 0) carries a four-byte packed move; IllegalMove (1) a one-byte
//! error code; MoveList (2) a one-byte count and that many packed moves;
//! Username (3) a one-byte length and that many UTF-8 bytes; RequestHistory
//! (4), Reset (6), Observer (7) and IllegalCommand (255) carry nothing;
//! ColorSelect (5) carries a one-byte side code. Parsing accepts exactly the
//! tag plus the variant's payload with no trailing bytes, and every failure
//! collapses to a single `ParseError`.

use crate::moves::{le_bytes, lemma_compact_move_eq, lemma_le_bytes_round_trip, u32_of_le,
    CompactMove};
use crate::pieces::{HnefataflError, Turn};
use vstd::prelude::*;
use vstd::string::StrSliceExecFns;
use vstd::utf8::{encode_utf8, encode_utf8_decode_utf8, encode_utf8_valid_utf8, valid_utf8};

verus! {

/// Everything that can go wrong while framing or parsing a wire message.
#[derive(Debug, Clone, PartialEq, Eq, Structural)]
pub enum CommandError {
    /// The caller-supplied buffer is smaller than the message: carries the
    /// buffer length it got and the length it expected, each reduced mod 256
    /// to fit the byte-sized fields.
    TooFewBytes(u8, u8),
    /// A tag byte that names no known variant.
    InvalidCommandKind(u8),
    /// Any structural failure of a wire message: unknown tag, truncated or
    /// oversized payload, trailing bytes, or text that is not UTF-8.
    ParseError,
}

/// One protocol event, exchanged between peers as a tagged wire message.
#[derive(Debug, Clone, PartialEq)]
pub enum Command {
    /// A move that was played, in packed form.
    Move(CompactMove),
    /// A move was refused, with the rule it broke.
    IllegalMove(HnefataflError),
    /// The moves played so far, usually answering `RequestHistory`.
    MoveList(Vec<CompactMove>),
    /// A player introduces themselves.
    Username(String),
    /// Ask the peer for the game history.
    RequestHistory,
    /// Tell a player which side they play.
    ColorSelect(Turn),
    /// Reset the game.
    Reset,
    /// The peer joins as an observer; both seats are taken.
    Observer,
    /// The usual answer to a message that could not be understood.
    IllegalCommand,
}

/// The one-byte wire code of a rule error.
pub open spec fn err_code(e: HnefataflError) -> u8 {
    match e {
        HnefataflError::NoPieceToMove => 0,
        HnefataflError::PieceInTheWay => 1,
        HnefataflError::StartOutOfBounds => 2,
        HnefataflError::TargetOutOfBounds => 3,
        HnefataflError::MoveNotHorVer => 4,
        HnefataflError::WrongPieceColor => 5,
        HnefataflError::IsProtectedTile => 6,
        HnefataflError::TooManyCaptures => 7,
        HnefataflError::GameAlreadyWon => 8,
        HnefataflError::OtherError(_) => 9,
    }
}

/// The one-byte wire code of a side.
pub open spec fn turn_code(t: Turn) -> u8 {
    match t {
        Turn::White => 0,
        Turn::Black => 1,
    }
}

/// The concatenated four-byte encodings of a list of packed moves.
pub open spec fn moves_bytes(ms: Seq<CompactMove>) -> Seq<u8> {
    Seq::new(ms.len() * 4, |j: int| le_bytes(ms[j / 4]@)[j % 4])
}

/// The tag byte that selects a command's variant on the wire.
pub open spec fn tag_of(c: Command) -> u8 {
    match c {
        Command::Move(_) => 0,
        Command::IllegalMove(_) => 1,
        Command::MoveList(_) => 2,
        Command::Username(_) => 3,
        Command::RequestHistory => 4,
        Command::ColorSelect(_) => 5,
        Command::Reset => 6,
        Command::Observer => 7,
        Command::IllegalCommand => 255,
    }
}

/// The exact bytes a command puts on the wire: its tag followed by its
/// payload.
pub open spec fn serialize_spec(c: Command) -> Seq<u8> {
    match c {
        Command::Move(cm) => seq![0u8] + le_bytes(cm@),
        Command::IllegalMove(e) => seq![1u8, err_code(e)],
        Command::MoveList(ms) => seq![2u8, ms@.len() as u8] + moves_bytes(ms@),
        Command::Username(s) => seq![3u8, encode_utf8(s@).len() as u8] + encode_utf8(s@),
        Command::RequestHistory => seq![4u8],
        Command::ColorSelect(t) => seq![5u8, turn_code(t)],
        Command::Reset => seq![6u8],
        Command::Observer => seq![7u8],
        Command::IllegalCommand => seq![255u8],
    }
}

/// Whether a command fits the wire format at all: list and name sizes are
/// bounded to 255 by their one-byte length fields.
pub open spec fn encodable(c: Command) -> bool {
    match c {
        Command::MoveList(ms) => ms@.len() <= 255,
        Command::Username(s) => encode_utf8(s@).len() <= 255,
        _ => true,
    }
}

/// Whether a command is exactly what its own wire bytes parse back to: it is
/// encodable, and an `OtherError` detail string (which the one-byte error
/// code cannot carry) is empty.
pub open spec fn canonical(c: Command) -> bool {
    &&& encodable(c)
    &&& match c {
        Command::IllegalMove(HnefataflError::OtherError(s)) => s@.len() == 0,
        _ => true,
    }
}

/// Whether two rule errors agree, comparing `OtherError` details by content.
pub open spec fn err_matches(a: HnefataflError, b: HnefataflError) -> bool {
    match (a, b) {
        (HnefataflError::OtherError(s), HnefataflError::OtherError(t)) => s@ == t@,
        _ => a == b,
    }
}

/// Whether two commands agree, comparing list and text payloads by content.
pub open spec fn cmd_matches(a: Command, b: Command) -> bool {
    match (a, b) {
        (Command::Move(x), Command::Move(y)) => x == y,
        (Command::IllegalMove(e), Command::IllegalMove(f)) => err_matches(e, f),
        (Command::MoveList(v), Command::MoveList(w)) => v@ == w@,
        (Command::Username(s), Command::Username(t)) => s@ == t@,
        (Command::RequestHistory, Command::RequestHistory) => true,
        (Command::ColorSelect(u), Command::ColorSelect(w)) => u == w,
        (Command::Reset, Command::Reset) => true,
        (Command::Observer, Command::Observer) => true,
        (Command::IllegalCommand, Command::IllegalCommand) => true,
        _ => false,
    }
}

/// The leading byte and length of every wire message, by variant.
pub proof fn lemma_serialize_shape(c: Command)
    ensures
        serialize_spec(c).len() >= 1,
        serialize_spec(c)[0] == tag_of(c),
        match c {
            Command::Move(_) => serialize_spec(c)[0] == 0 && serialize_spec(c).len() == 5,
            Command::IllegalMove(e) => serialize_spec(c)[0] == 1 && serialize_spec(c).len() == 2
                && serialize_spec(c)[1] == err_code(e) && err_code(e) <= 9,
            Command::MoveList(ms) => serialize_spec(c)[0] == 2 && serialize_spec(c).len() == 2 + 4
                * ms@.len() && (ms@.len() <= 255 ==> serialize_spec(c)[1] as int == ms@.len()),
            Command::Username(s) => serialize_spec(c)[0] == 3 && serialize_spec(c).len() == 2
                + encode_utf8(s@).len() && (encode_utf8(s@).len() <= 255 ==> serialize_spec(
                c,
            )[1] as int == encode_utf8(s@).len()),
            Command::RequestHistory => serialize_spec(c) =~= seq![4u8],
            Command::ColorSelect(t) => serialize_spec(c)[0] == 5 && serialize_spec(c).len() == 2
                && serialize_spec(c)[1] == turn_code(t) && turn_code(t) <= 1,
            Command::Reset => serialize_spec(c) =~= seq![6u8],
            Command::Observer => serialize_spec(c) =~= seq![7u8],
            Command::IllegalCommand => serialize_spec(c) =~= seq![255u8],
        },
{
}

/// Two lists of packed moves with the same wire bytes and length are the
/// same list.
pub proof fn lemma_moves_bytes_determines(a: Seq<CompactMove>, b: Seq<CompactMove>)
    requires
        a.len() == b.len(),
        moves_bytes(a) == moves_bytes(b),
    ensures
        a =~= b,
{
    assert forall|i: int| 0 <= i < a.len() implies a[i] == b[i] by {
        assert forall|k: int| 0 <= k < 4 implies le_bytes(a[i]@)[k] == le_bytes(b[i]@)[k] by {
            let j = 4 * i + k;
            assert(j / 4 == i && j % 4 == k);
            assert(moves_bytes(a)[j] == le_bytes(a[j / 4]@)[j % 4]);
            assert(moves_bytes(b)[j] == le_bytes(b[j / 4]@)[j % 4]);
        }
        assert(le_bytes(a[i]@) =~= le_bytes(b[i]@));
        lemma_le_bytes_round_trip(a[i]@, 0, 0, 0, 0);
        lemma_le_bytes_round_trip(b[i]@, 0, 0, 0, 0);
        assert(u32_of_le(
            le_bytes(a[i]@)[0],
            le_bytes(a[i]@)[1],
            le_bytes(a[i]@)[2],
            le_bytes(a[i]@)[3],
        ) == a[i]@);
        assert(a[i]@ == b[i]@);
        lemma_compact_move_eq(a[i], b[i]);
    }
}

/// Law: the wire encoding is unambiguous. Two canonical commands that put
/// the same bytes on the wire agree in every payload.
pub proof fn lemma_serialize_injective(a: Command, b: Command)
    requires
        canonical(a),
        canonical(b),
        serialize_spec(a) == serialize_spec(b),
    ensures
        cmd_matches(a, b),
{
    lemma_serialize_shape(a);
    lemma_serialize_shape(b);
    match (a, b) {
        (Command::Move(x), Command::Move(y)) => {
            assert forall|k: int| 0 <= k < 4 implies le_bytes(x@)[k] == le_bytes(y@)[k] by {
                assert(serialize_spec(a)[k + 1] == le_bytes(x@)[k]);
                assert(serialize_spec(b)[k + 1] == le_bytes(y@)[k]);
            }
            assert(le_bytes(x@) =~= le_bytes(y@));
            lemma_le_bytes_round_trip(x@, 0, 0, 0, 0);
            lemma_le_bytes_round_trip(y@, 0, 0, 0, 0);
            assert(x@ == y@);
            lemma_compact_move_eq(x, y);
        },
        (Command::IllegalMove(e), Command::IllegalMove(f)) => {
            assert(err_code(e) == err_code(f));
            match (e, f) {
                (HnefataflError::OtherError(s), HnefataflError::OtherError(t)) => {
                    assert(s@ =~= t@);
                },
                _ => {},
            }
        },
        (Command::MoveList(v), Command::MoveList(w)) => {
            assert(v@.len() == w@.len());
            assert forall|j: int| 0 <= j < moves_bytes(v@).len() implies moves_bytes(v@)[j]
                == moves_bytes(w@)[j] by {
                assert(serialize_spec(a)[j + 2] == moves_bytes(v@)[j]);
                assert(serialize_spec(b)[j + 2] == moves_bytes(w@)[j]);
            }
            assert(moves_bytes(v@) =~= moves_bytes(w@));
            lemma_moves_bytes_determines(v@, w@);
        },
        (Command::Username(s), Command::Username(t)) => {
            assert(encode_utf8(s@).len() == encode_utf8(t@).len());
            assert forall|j: int| 0 <= j < encode_utf8(s@).len() implies encode_utf8(s@)[j]
                == encode_utf8(t@)[j] by {
                assert(serialize_spec(a)[j + 2] == encode_utf8(s@)[j]);
                assert(serialize_spec(b)[j + 2] == encode_utf8(t@)[j]);
            }
            assert(encode_utf8(s@) =~= encode_utf8(t@));
            encode_utf8_decode_utf8(s@);
            encode_utf8_decode_utf8(t@);
        },
        (Command::ColorSelect(u), Command::ColorSelect(w)) => {
            assert(turn_code(u) == turn_code(w));
        },
        (Command::RequestHistory, Command::RequestHistory) => {},
        (Command::Reset, Command::Reset) => {},
        (Command::Observer, Command::Observer) => {},
        (Command::IllegalCommand, Command::IllegalCommand) => {},
        _ => {
            assert(tag_of(a) == tag_of(b));
            assert(false);
        },
    }
}

impl HnefataflError {
    /// The one-byte wire code of this error.
    pub fn code(&self) -> (r: u8)
        ensures
            r == err_code(*self),
    {
        match self {
            HnefataflError::NoPieceToMove => 0,
            HnefataflError::PieceInTheWay => 1,
            HnefataflError::StartOutOfBounds => 2,
            HnefataflError::TargetOutOfBounds => 3,
            HnefataflError::MoveNotHorVer => 4,
            HnefataflError::WrongPieceColor => 5,
            HnefataflError::IsProtectedTile => 6,
            HnefataflError::TooManyCaptures => 7,
            HnefataflError::GameAlreadyWon => 8,
            HnefataflError::OtherError(_) => 9,
        }
    }

    /// The error a one-byte wire code stands for, or nothing for an unknown
    /// code. Code 9 yields an `OtherError` with an empty detail: the wire
    /// does not carry the text.
    pub fn from_code(code: u8) -> (r: Option<HnefataflError>)
        ensures
            match r {
                Some(e) => code <= 9 && err_code(e) == code && canonical(Command::IllegalMove(e)),
                None => code > 9,
            },
    {
        match code {
            0 => Some(HnefataflError::NoPieceToMove),
            1 => Some(HnefataflError::PieceInTheWay),
            2 => Some(HnefataflError::StartOutOfBounds),
            3 => Some(HnefataflError::TargetOutOfBounds),
            4 => Some(HnefataflError::MoveNotHorVer),
            5 => Some(HnefataflError::WrongPieceColor),
            6 => Some(HnefataflError::IsProtectedTile),
            7 => Some(HnefataflError::TooManyCaptures),
            8 => Some(HnefataflError::GameAlreadyWon),
            9 => Some(HnefataflError::OtherError(String::new())),
            _ => None,
        }
    }
}

impl Turn {
    /// The one-byte wire code of this side.
    pub fn code(&self) -> (r: u8)
        ensures
            r == turn_code(*self),
    {
        match self {
            Turn::White => 0,
            Turn::Black => 1,
        }
    }

    /// The side a one-byte wire code stands for, or nothing for an unknown
    /// code.
    pub fn from_code(code: u8) -> (r: Option<Turn>)
        ensures
            match r {
                Some(t) => turn_code(t) == code,
                None => code > 1,
            },
    {
        match code {
            0 => Some(Turn::White),
            1 => Some(Turn::Black),
            _ => None,
        }
    }
}

/// Relies on `String::from_utf8` from std: it succeeds exactly on byte
/// sequences that are valid UTF-8, and the string it returns holds exactly
/// the characters those bytes encode (stated through vstd's UTF-8 model,
/// the same model vstd uses for `str::as_bytes`).
#[verifier::external_body]
fn utf8_to_string(v: Vec<u8>) -> (r: Option<String>)
    ensures
        r is Some <==> valid_utf8(v@),
        r matches Some(s) ==> encode_utf8(s@) == v@,
{
    match String::from_utf8(v) {
        Ok(s) => Some(s),
        Err(_) => None,
    }
}

/// Appending one packed move to a list appends its four wire bytes.
pub proof fn lemma_moves_bytes_snoc(s: Seq<CompactMove>, i: int)
    requires
        0 <= i < s.len(),
    ensures
        moves_bytes(s.take(i + 1)) =~= moves_bytes(s.take(i)) + le_bytes(s[i]@),
{
    assert forall|j: int| 0 <= j < (i + 1) * 4 implies moves_bytes(s.take(i + 1))[j] == (
    moves_bytes(s.take(i)) + le_bytes(s[i]@))[j] by {
        assert(moves_bytes(s.take(i + 1))[j] == le_bytes(s.take(i + 1)[j / 4]@)[j % 4]);
        if j < 4 * i {
            assert(moves_bytes(s.take(i))[j] == le_bytes(s.take(i)[j / 4]@)[j % 4]);
            assert(s.take(i + 1)[j / 4] == s.take(i)[j / 4]);
        } else {
            assert(j / 4 == i && j % 4 == j - 4 * i);
            assert(s.take(i + 1)[i] == s[i]);
            assert((moves_bytes(s.take(i)) + le_bytes(s[i]@))[j] == le_bytes(s[i]@)[j - 4 * i]);
        }
    }
}

/// Copy the bytes of a slice from position `from` onward into a fresh
/// buffer.
fn tail_to_vec(bytes: &[u8], from: usize) -> (r: Vec<u8>)
    requires
        from <= bytes@.len(),
    ensures
        r@ == bytes@.skip(from as int),
{
    let mut v: Vec<u8> = Vec::new();
    let mut i: usize = from;
    while i < bytes.len()
        invariant
            from <= i <= bytes@.len(),
            v@.len() == i - from,
            forall|j: int| 0 <= j < v@.len() ==> v@[j] == bytes@[from + j],
        decreases bytes@.len() - i,
    {
        let b = bytes[i];
        v.push(b);
        i = i + 1;
    }
    proof {
        assert(v@ =~= bytes@.skip(from as int));
    }
    v
}

impl Command {
    /// The exact wire bytes of this command, or nothing when a list or name
    /// payload is too long for its one-byte length field.
    fn serialize_to_vec(&self) -> (r: Option<Vec<u8>>)
        ensures
            match r {
                Some(v) => encodable(*self) && v@ == serialize_spec(*self),
                None => !encodable(*self),
            },
    {
        match self {
            Command::Move(cm) => {
                let b = cm.to_le_bytes();
                let mut v: Vec<u8> = Vec::new();
                v.push(0u8);
                v.push(b[0]);
                v.push(b[1]);
                v.push(b[2]);
                v.push(b[3]);
                proof {
                    assert(v@ =~= serialize_spec(*self));
                }
                Some(v)
            },
            Command::IllegalMove(e) => {
                let mut v: Vec<u8> = Vec::new();
                v.push(1u8);
                v.push(e.code());
                proof {
                    assert(v@ =~= serialize_spec(*self));
                }
                Some(v)
            },
            Command::MoveList(ms) => {
                if ms.len() > 255 {
                    return None;
                }
                let mut v: Vec<u8> = Vec::new();
                v.push(2u8);
                v.push(ms.len() as u8);
                let mut i: usize = 0;
                while i < ms.len()
                    invariant
                        i <= ms@.len(),
                        ms@.len() <= 255,
                        v@ == seq![2u8, ms@.len() as u8] + moves_bytes(ms@.take(i as int)),
                    decreases ms@.len() - i,
                {
                    let b = ms[i].to_le_bytes();
                    v.push(b[0]);
                    v.push(b[1]);
                    v.push(b[2]);
                    v.push(b[3]);
                    proof {
                        lemma_moves_bytes_snoc(ms@, i as int);
                        assert(v@ =~= seq![2u8, ms@.len() as u8] + moves_bytes(
                            ms@.take(i as int + 1),
                        ));
                    }
                    i = i + 1;
                }
                proof {
                    assert(ms@.take(ms@.len() as int) =~= ms@);
                    assert(v@ =~= serialize_spec(*self));
                }
                Some(v)
            },
            Command::Username(name) => {
                let nb = name.as_str().as_bytes_vec();
                if nb.len() > 255 {
                    return None;
                }
                let mut v: Vec<u8> = Vec::new();
                v.push(3u8);
                v.push(nb.len() as u8);
                let mut nb = nb;
                v.append(&mut nb);
                proof {
                    assert(v@ =~= serialize_spec(*self));
                }
                Some(v)
            },
            Command::RequestHistory => {
                let mut v: Vec<u8> = Vec::new();
                v.push(4u8);
                proof {
                    assert(v@ =~= serialize_spec(*self));
                }
                Some(v)
            },
            Command::ColorSelect(t) => {
                let mut v: Vec<u8> = Vec::new();
                v.push(5u8);
                v.push(t.code());
                proof {
                    assert(v@ =~= serialize_spec(*self));
                }
                Some(v)
            },
            Command::Reset => {
                let mut v: Vec<u8> = Vec::new();
                v.push(6u8);
                proof {
                    assert(v@ =~= serialize_spec(*self));
                }
                Some(v)
            },
            Command::Observer => {
                let mut v: Vec<u8> = Vec::new();
                v.push(7u8);
                proof {
                    assert(v@ =~= serialize_spec(*self));
                }
                Some(v)
            },
            Command::IllegalCommand => {
                let mut v: Vec<u8> = Vec::new();
                v.push(255u8);
                proof {
                    assert(v@ =~= serialize_spec(*self));
                }
                Some(v)
            },
        }
    }

    /// Write this command's tag and payload into the front of the caller's
    /// buffer and return how many bytes were written. Fails with
    /// `TooFewBytes` when the buffer is smaller than the message (the two
    /// reported lengths are reduced mod 256 to fit their byte fields), and
    /// with `ParseError` when a list or name payload cannot fit its one-byte
    /// length field; on failure the buffer is untouched.
    pub fn to_binary(&self, bytes: &mut Vec<u8>) -> (r: Result<usize, CommandError>)
        ensures
            !encodable(*self) ==> r == Err::<usize, CommandError>(CommandError::ParseError)
                && *final(bytes) == *old(bytes),
            encodable(*self) && old(bytes)@.len() < serialize_spec(*self).len() ==> r == Err::<
                usize,
                CommandError,
            >(
                CommandError::TooFewBytes(
                    (old(bytes)@.len() % 256) as u8,
                    (serialize_spec(*self).len() % 256) as u8,
                ),
            ) && *final(bytes) == *old(bytes),
            encodable(*self) && old(bytes)@.len() >= serialize_spec(*self).len() ==> ({
                &&& r == Ok::<usize, CommandError>(serialize_spec(*self).len() as usize)
                &&& final(bytes)@ == serialize_spec(*self) + old(bytes)@.skip(
                    serialize_spec(*self).len() as int,
                )
            }),
    {
        let s = match self.serialize_to_vec() {
            Some(s) => s,
            None => {
                return Err(CommandError::ParseError);
            },
        };
        if bytes.len() < s.len() {
            return Err(
                CommandError::TooFewBytes((bytes.len() % 256) as u8, (s.len() % 256) as u8),
            );
        }
        let mut i: usize = 0;
        while i < s.len()
            invariant
                i <= s@.len(),
                s@.len() <= old(bytes)@.len(),
                bytes@.len() == old(bytes)@.len(),
                s@ == serialize_spec(*self),
                forall|j: int| 0 <= j < i ==> bytes@[j] == s@[j],
                forall|j: int| i <= j < bytes@.len() ==> bytes@[j] == old(bytes)@[j],
            decreases s@.len() - i,
        {
            let b = s[i];
            bytes[i] = b;
            i = i + 1;
        }
        proof {
            assert(bytes@ =~= serialize_spec(*self) + old(bytes)@.skip(
                serialize_spec(*self).len() as int,
            ));
        }
        Ok(s.len())
    }

    /// The exact wire bytes of this command in a fresh buffer, or an empty
    /// buffer when a list or name payload cannot fit its one-byte length
    /// field.
    pub fn to_binary_vec(&self) -> (r: Vec<u8>)
        ensures
            encodable(*self) ==> r@ == serialize_spec(*self),
            !encodable(*self) ==> r@ == Seq::<u8>::empty(),
    {
        match self.serialize_to_vec() {
            Some(v) => v,
            None => Vec::new(),
        }
    }

    /// Parse one wire message: the tag byte selects the variant, the
    /// variant's exact payload must follow, and no byte may trail it. The
    /// command returned encodes back to exactly the input; parsing the
    /// serialization of any canonical command yields that command; and every
    /// failure is the single `ParseError`.
    pub fn from_binary(bytes: &[u8]) -> (r: Result<Command, CommandError>)
        ensures
            r is Err ==> r == Err::<Command, CommandError>(CommandError::ParseError),
            r matches Ok(c) ==> canonical(c) && serialize_spec(c) == bytes@,
            forall|c: Command|
                canonical(c) && #[trigger] serialize_spec(c) == bytes@ ==> (r matches Ok(d)
                    && cmd_matches(d, c)),
    {
        let n = bytes.len();
        if n == 0 {
            proof {
                assert forall|c: Command| canonical(c) implies serialize_spec(c) != bytes@ by {
                    lemma_serialize_shape(c);
                }
            }
            return Err(CommandError::ParseError);
        }
        let tag = bytes[0];
        if tag == 0 {
            if n != 5 {
                proof {
                    assert forall|c: Command| canonical(c) implies serialize_spec(c) != bytes@ by {
                        lemma_serialize_shape(c);
                    }
                }
                return Err(CommandError::ParseError);
            }
            let cm = CompactMove::from_le_bytes(bytes[1], bytes[2], bytes[3], bytes[4]);
            let c_out = Command::Move(cm);
            proof {
                lemma_le_bytes_round_trip(0, bytes@[1], bytes@[2], bytes@[3], bytes@[4]);
                assert(le_bytes(cm@) =~= seq![bytes@[1], bytes@[2], bytes@[3], bytes@[4]]);
                assert(serialize_spec(c_out) =~= bytes@);
                assert forall|c: Command|
                    canonical(c) && #[trigger] serialize_spec(c) == bytes@ implies cmd_matches(
                    c_out,
                    c,
                ) by {
                    lemma_serialize_injective(c_out, c);
                }
            }
            Ok(c_out)
        } else if tag == 1 {
            if n != 2 {
                proof {
                    assert forall|c: Command| canonical(c) implies serialize_spec(c) != bytes@ by {
                        lemma_serialize_shape(c);
                    }
                }
                return Err(CommandError::ParseError);
            }
            match HnefataflError::from_code(bytes[1]) {
                Some(e) => {
                    let c_out = Command::IllegalMove(e);
                    proof {
                        assert(serialize_spec(c_out) =~= bytes@);
                        assert forall|c: Command|
                            canonical(c) && #[trigger] serialize_spec(c)
                                == bytes@ implies cmd_matches(c_out, c) by {
                            lemma_serialize_injective(c_out, c);
                        }
                    }
                    Ok(c_out)
                },
                None => {
                    proof {
                        assert forall|c: Command| canonical(c) implies serialize_spec(c)
                            != bytes@ by {
                            lemma_serialize_shape(c);
                        }
                    }
                    Err(CommandError::ParseError)
                },
            }
        } else if tag == 2 {
            if n < 2 {
                proof {
                    assert forall|c: Command| canonical(c) implies serialize_spec(c) != bytes@ by {
                        lemma_serialize_shape(c);
                    }
                }
                return Err(CommandError::ParseError);
            }
            let count = bytes[1] as usize;
            if n != 2 + 4 * count {
                proof {
                    assert forall|c: Command| canonical(c) implies serialize_spec(c) != bytes@ by {
                        lemma_serialize_shape(c);
                    }
                }
                return Err(CommandError::ParseError);
            }
            let mut list: Vec<CompactMove> = Vec::new();
            let mut i: usize = 0;
            while i < count
                invariant
                    i <= count,
                    count <= 255,
                    bytes@.len() == 2 + 4 * count,
                    list@.len() == i,
                    forall|k: int|
                        0 <= k < i ==> #[trigger] list@[k]@ == u32_of_le(
                            bytes@[2 + 4 * k],
                            bytes@[2 + 4 * k + 1],
                            bytes@[2 + 4 * k + 2],
                            bytes@[2 + 4 * k + 3],
                        ),
                decreases count - i,
            {
                let base = 2 + 4 * i;
                let cm = CompactMove::from_le_bytes(
                    bytes[base],
                    bytes[base + 1],
                    bytes[base + 2],
                    bytes[base + 3],
                );
                list.push(cm);
                i = i + 1;
            }
            let c_out = Command::MoveList(list);
            proof {
                assert forall|j: int| 0 <= j < 4 * count implies moves_bytes(c_out->MoveList_0@)[j]
                    == bytes@[2 + j] by {
                    let lv = c_out->MoveList_0@;
                    let q = j / 4;
                    let w = j % 4;
                    assert(4 * q + w == j && 0 <= w < 4 && 0 <= q < count);
                    assert(lv[q]@ == u32_of_le(
                        bytes@[2 + 4 * q],
                        bytes@[2 + 4 * q + 1],
                        bytes@[2 + 4 * q + 2],
                        bytes@[2 + 4 * q + 3],
                    ));
                    lemma_le_bytes_round_trip(
                        0,
                        bytes@[2 + 4 * q],
                        bytes@[2 + 4 * q + 1],
                        bytes@[2 + 4 * q + 2],
                        bytes@[2 + 4 * q + 3],
                    );
                    assert(le_bytes(lv[q]@) =~= seq![
                        bytes@[2 + 4 * q],
                        bytes@[2 + 4 * q + 1],
                        bytes@[2 + 4 * q + 2],
                        bytes@[2 + 4 * q + 3],
                    ]);
                    assert(moves_bytes(lv)[j] == le_bytes(lv[q]@)[w]);
                }
                assert(serialize_spec(c_out) =~= bytes@);
                assert forall|c: Command|
                    canonical(c) && #[trigger] serialize_spec(c) == bytes@ implies cmd_matches(
                    c_out,
                    c,
                ) by {
                    lemma_serialize_injective(c_out, c);
                }
            }
            Ok(c_out)
        } else if tag == 3 {
            if n < 2 {
                proof {
                    assert forall|c: Command| canonical(c) implies serialize_spec(c) != bytes@ by {
                        lemma_serialize_shape(c);
                    }
                }
                return Err(CommandError::ParseError);
            }
            let l = bytes[1] as usize;
            if n != 2 + l {
                proof {
                    assert forall|c: Command| canonical(c) implies serialize_spec(c) != bytes@ by {
                        lemma_serialize_shape(c);
                    }
                }
                return Err(CommandError::ParseError);
            }
            let payload = tail_to_vec(bytes, 2);
            let ghost pv = payload@;
            match utf8_to_string(payload) {
                Some(s) => {
                    let c_out = Command::Username(s);
                    proof {
                        assert(encode_utf8(s@) == bytes@.skip(2));
                        assert(encode_utf8(s@).len() == l);
                        assert(serialize_spec(c_out) =~= bytes@);
                        assert forall|c: Command|
                            canonical(c) && #[trigger] serialize_spec(c)
                                == bytes@ implies cmd_matches(c_out, c) by {
                            lemma_serialize_injective(c_out, c);
                        }
                    }
                    Ok(c_out)
                },
                None => {
                    proof {
                        assert(!valid_utf8(bytes@.skip(2)));
                        assert forall|c: Command| canonical(c) implies serialize_spec(c)
                            != bytes@ by {
                            lemma_serialize_shape(c);
                            if let Command::Username(u) = c {
                                encode_utf8_valid_utf8(u@);
                                if serialize_spec(c) == bytes@ {
                                    assert forall|j: int|
                                        0 <= j < encode_utf8(u@).len() implies #[trigger] encode_utf8(
                                        u@,
                                    )[j] == bytes@.skip(2)[j] by {
                                        assert(serialize_spec(c)[j + 2] == encode_utf8(u@)[j]);
                                    }
                                    assert(encode_utf8(u@) =~= bytes@.skip(2));
                                }
                            }
                        }
                    }
                    Err(CommandError::ParseError)
                },
            }
        } else if tag == 4 || tag == 6 || tag == 7 || tag == 255 {
            if n != 1 {
                proof {
                    assert forall|c: Command| canonical(c) implies serialize_spec(c) != bytes@ by {
                        lemma_serialize_shape(c);
                    }
                }
                return Err(CommandError::ParseError);
            }
            let c_out = if tag == 4 {
                Command::RequestHistory
            } else if tag == 6 {
                Command::Reset
            } else if tag == 7 {
                Command::Observer
            } else {
                Command::IllegalCommand
            };
            proof {
                assert(serialize_spec(c_out) =~= bytes@);
                assert forall|c: Command|
                    canonical(c) && #[trigger] serialize_spec(c) == bytes@ implies cmd_matches(
                    c_out,
                    c,
                ) by {
                    lemma_serialize_injective(c_out, c);
                }
            }
            Ok(c_out)
        } else if tag == 5 {
            if n != 2 {
                proof {
                    assert forall|c: Command| canonical(c) implies serialize_spec(c) != bytes@ by {
                        lemma_serialize_shape(c);
                    }
                }
                return Err(CommandError::ParseError);
            }
            match Turn::from_code(bytes[1]) {
                Some(t) => {
                    let c_out = Command::ColorSelect(t);
                    proof {
                        assert(serialize_spec(c_out) =~= bytes@);
                        assert forall|c: Command|
                            canonical(c) && #[trigger] serialize_spec(c)
                                == bytes@ implies cmd_matches(c_out, c) by {
                            lemma_serialize_injective(c_out, c);
                        }
                    }
                    Ok(c_out)
                },
                None => {
                    proof {
                        assert forall|c: Command| canonical(c) implies serialize_spec(c)
                            != bytes@ by {
                            lemma_serialize_shape(c);
                        }
                    }
                    Err(CommandError::ParseError)
                },
            }
        } else {
            proof {
                assert forall|c: Command| canonical(c) implies serialize_spec(c) != bytes@ by {
                    lemma_serialize_shape(c);
                }
            }
            Err(CommandError::ParseError)
        }
    }
}

} // verus!
