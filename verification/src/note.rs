//! Musical notes of the twelve-tone equal-tempered scale over ten octaves,
//! and MIDI note numbers.
use vstd::prelude::*;

verus! {

/// A note: a pitch class and an octave from 0 to 9. `C4` is middle C.
#[derive(Debug, Clone, Copy, PartialEq, Eq, Structural)]
pub enum Note {
    C0, CSharp0, D0, DSharp0, E0, F0, FSharp0, G0, GSharp0, A0, ASharp0, B0,
    C1, CSharp1, D1, DSharp1, E1, F1, FSharp1, G1, GSharp1, A1, ASharp1, B1,
    C2, CSharp2, D2, DSharp2, E2, F2, FSharp2, G2, GSharp2, A2, ASharp2, B2,
    C3, CSharp3, D3, DSharp3, E3, F3, FSharp3, G3, GSharp3, A3, ASharp3, B3,
    C4, CSharp4, D4, DSharp4, E4, F4, FSharp4, G4, GSharp4, A4, ASharp4, B4,
    C5, CSharp5, D5, DSharp5, E5, F5, FSharp5, G5, GSharp5, A5, ASharp5, B5,
    C6, CSharp6, D6, DSharp6, E6, F6, FSharp6, G6, GSharp6, A6, ASharp6, B6,
    C7, CSharp7, D7, DSharp7, E7, F7, FSharp7, G7, GSharp7, A7, ASharp7, B7,
    C8, CSharp8, D8, DSharp8, E8, F8, FSharp8, G8, GSharp8, A8, ASharp8, B8,
    C9, CSharp9, D9, DSharp9, E9, F9, FSharp9, G9, GSharp9, A9, ASharp9, B9,
}

/// The number of notes, twelve per octave over ten octaves.
pub const NOTE_COUNT: usize = 120;

/// The MIDI number of `C0`, the lowest note.
pub const MIDI_OFFSET: u8 = 12;

/// The note at position `i` in ascending order, starting from `C0`.
pub open spec fn note_at(i: int) -> Note {
    if 0 <= i < NOTE_COUNT {
        note_at_byte(i as u8)
    } else {
        Note::B9
    }
}

/// The note at position `i` in ascending order, for `i` below `NOTE_COUNT`.
pub open spec fn note_at_byte(i: u8) -> Note {
    match i {
        0 => Note::C0,
        1 => Note::CSharp0,
        2 => Note::D0,
        3 => Note::DSharp0,
        4 => Note::E0,
        5 => Note::F0,
        6 => Note::FSharp0,
        7 => Note::G0,
        8 => Note::GSharp0,
        9 => Note::A0,
        10 => Note::ASharp0,
        11 => Note::B0,
        12 => Note::C1,
        13 => Note::CSharp1,
        14 => Note::D1,
        15 => Note::DSharp1,
        16 => Note::E1,
        17 => Note::F1,
        18 => Note::FSharp1,
        19 => Note::G1,
        20 => Note::GSharp1,
        21 => Note::A1,
        22 => Note::ASharp1,
        23 => Note::B1,
        24 => Note::C2,
        25 => Note::CSharp2,
        26 => Note::D2,
        27 => Note::DSharp2,
        28 => Note::E2,
        29 => Note::F2,
        30 => Note::FSharp2,
        31 => Note::G2,
        32 => Note::GSharp2,
        33 => Note::A2,
        34 => Note::ASharp2,
        35 => Note::B2,
        36 => Note::C3,
        37 => Note::CSharp3,
        38 => Note::D3,
        39 => Note::DSharp3,
        40 => Note::E3,
        41 => Note::F3,
        42 => Note::FSharp3,
        43 => Note::G3,
        44 => Note::GSharp3,
        45 => Note::A3,
        46 => Note::ASharp3,
        47 => Note::B3,
        48 => Note::C4,
        49 => Note::CSharp4,
        50 => Note::D4,
        51 => Note::DSharp4,
        52 => Note::E4,
        53 => Note::F4,
        54 => Note::FSharp4,
        55 => Note::G4,
        56 => Note::GSharp4,
        57 => Note::A4,
        58 => Note::ASharp4,
        59 => Note::B4,
        60 => Note::C5,
        61 => Note::CSharp5,
        62 => Note::D5,
        63 => Note::DSharp5,
        64 => Note::E5,
        65 => Note::F5,
        66 => Note::FSharp5,
        67 => Note::G5,
        68 => Note::GSharp5,
        69 => Note::A5,
        70 => Note::ASharp5,
        71 => Note::B5,
        72 => Note::C6,
        73 => Note::CSharp6,
        74 => Note::D6,
        75 => Note::DSharp6,
        76 => Note::E6,
        77 => Note::F6,
        78 => Note::FSharp6,
        79 => Note::G6,
        80 => Note::GSharp6,
        81 => Note::A6,
        82 => Note::ASharp6,
        83 => Note::B6,
        84 => Note::C7,
        85 => Note::CSharp7,
        86 => Note::D7,
        87 => Note::DSharp7,
        88 => Note::E7,
        89 => Note::F7,
        90 => Note::FSharp7,
        91 => Note::G7,
        92 => Note::GSharp7,
        93 => Note::A7,
        94 => Note::ASharp7,
        95 => Note::B7,
        96 => Note::C8,
        97 => Note::CSharp8,
        98 => Note::D8,
        99 => Note::DSharp8,
        100 => Note::E8,
        101 => Note::F8,
        102 => Note::FSharp8,
        103 => Note::G8,
        104 => Note::GSharp8,
        105 => Note::A8,
        106 => Note::ASharp8,
        107 => Note::B8,
        108 => Note::C9,
        109 => Note::CSharp9,
        110 => Note::D9,
        111 => Note::DSharp9,
        112 => Note::E9,
        113 => Note::F9,
        114 => Note::FSharp9,
        115 => Note::G9,
        116 => Note::GSharp9,
        117 => Note::A9,
        118 => Note::ASharp9,
        119 => Note::B9,
        _ => Note::B9,
    }
}

impl Note {
    /// The position of the note in ascending order, starting from `C0`.
    pub open spec fn position(self) -> nat {
        match self {
            Note::C0 => 0,
            Note::CSharp0 => 1,
            Note::D0 => 2,
            Note::DSharp0 => 3,
            Note::E0 => 4,
            Note::F0 => 5,
            Note::FSharp0 => 6,
            Note::G0 => 7,
            Note::GSharp0 => 8,
            Note::A0 => 9,
            Note::ASharp0 => 10,
            Note::B0 => 11,
            Note::C1 => 12,
            Note::CSharp1 => 13,
            Note::D1 => 14,
            Note::DSharp1 => 15,
            Note::E1 => 16,
            Note::F1 => 17,
            Note::FSharp1 => 18,
            Note::G1 => 19,
            Note::GSharp1 => 20,
            Note::A1 => 21,
            Note::ASharp1 => 22,
            Note::B1 => 23,
            Note::C2 => 24,
            Note::CSharp2 => 25,
            Note::D2 => 26,
            Note::DSharp2 => 27,
            Note::E2 => 28,
            Note::F2 => 29,
            Note::FSharp2 => 30,
            Note::G2 => 31,
            Note::GSharp2 => 32,
            Note::A2 => 33,
            Note::ASharp2 => 34,
            Note::B2 => 35,
            Note::C3 => 36,
            Note::CSharp3 => 37,
            Note::D3 => 38,
            Note::DSharp3 => 39,
            Note::E3 => 40,
            Note::F3 => 41,
            Note::FSharp3 => 42,
            Note::G3 => 43,
            Note::GSharp3 => 44,
            Note::A3 => 45,
            Note::ASharp3 => 46,
            Note::B3 => 47,
            Note::C4 => 48,
            Note::CSharp4 => 49,
            Note::D4 => 50,
            Note::DSharp4 => 51,
            Note::E4 => 52,
            Note::F4 => 53,
            Note::FSharp4 => 54,
            Note::G4 => 55,
            Note::GSharp4 => 56,
            Note::A4 => 57,
            Note::ASharp4 => 58,
            Note::B4 => 59,
            Note::C5 => 60,
            Note::CSharp5 => 61,
            Note::D5 => 62,
            Note::DSharp5 => 63,
            Note::E5 => 64,
            Note::F5 => 65,
            Note::FSharp5 => 66,
            Note::G5 => 67,
            Note::GSharp5 => 68,
            Note::A5 => 69,
            Note::ASharp5 => 70,
            Note::B5 => 71,
            Note::C6 => 72,
            Note::CSharp6 => 73,
            Note::D6 => 74,
            Note::DSharp6 => 75,
            Note::E6 => 76,
            Note::F6 => 77,
            Note::FSharp6 => 78,
            Note::G6 => 79,
            Note::GSharp6 => 80,
            Note::A6 => 81,
            Note::ASharp6 => 82,
            Note::B6 => 83,
            Note::C7 => 84,
            Note::CSharp7 => 85,
            Note::D7 => 86,
            Note::DSharp7 => 87,
            Note::E7 => 88,
            Note::F7 => 89,
            Note::FSharp7 => 90,
            Note::G7 => 91,
            Note::GSharp7 => 92,
            Note::A7 => 93,
            Note::ASharp7 => 94,
            Note::B7 => 95,
            Note::C8 => 96,
            Note::CSharp8 => 97,
            Note::D8 => 98,
            Note::DSharp8 => 99,
            Note::E8 => 100,
            Note::F8 => 101,
            Note::FSharp8 => 102,
            Note::G8 => 103,
            Note::GSharp8 => 104,
            Note::A8 => 105,
            Note::ASharp8 => 106,
            Note::B8 => 107,
            Note::C9 => 108,
            Note::CSharp9 => 109,
            Note::D9 => 110,
            Note::DSharp9 => 111,
            Note::E9 => 112,
            Note::F9 => 113,
            Note::FSharp9 => 114,
            Note::G9 => 115,
            Note::GSharp9 => 116,
            Note::A9 => 117,
            Note::ASharp9 => 118,
            Note::B9 => 119,
        }
    }

    /// The position of the note in ascending order, starting from `C0`.
    pub fn index(&self) -> (r: u8)
        ensures
            r == self.position(),
            r < NOTE_COUNT,
    {
        match self {
            Note::C0 => 0,
            Note::CSharp0 => 1,
            Note::D0 => 2,
            Note::DSharp0 => 3,
            Note::E0 => 4,
            Note::F0 => 5,
            Note::FSharp0 => 6,
            Note::G0 => 7,
            Note::GSharp0 => 8,
            Note::A0 => 9,
            Note::ASharp0 => 10,
            Note::B0 => 11,
            Note::C1 => 12,
            Note::CSharp1 => 13,
            Note::D1 => 14,
            Note::DSharp1 => 15,
            Note::E1 => 16,
            Note::F1 => 17,
            Note::FSharp1 => 18,
            Note::G1 => 19,
            Note::GSharp1 => 20,
            Note::A1 => 21,
            Note::ASharp1 => 22,
            Note::B1 => 23,
            Note::C2 => 24,
            Note::CSharp2 => 25,
            Note::D2 => 26,
            Note::DSharp2 => 27,
            Note::E2 => 28,
            Note::F2 => 29,
            Note::FSharp2 => 30,
            Note::G2 => 31,
            Note::GSharp2 => 32,
            Note::A2 => 33,
            Note::ASharp2 => 34,
            Note::B2 => 35,
            Note::C3 => 36,
            Note::CSharp3 => 37,
            Note::D3 => 38,
            Note::DSharp3 => 39,
            Note::E3 => 40,
            Note::F3 => 41,
            Note::FSharp3 => 42,
            Note::G3 => 43,
            Note::GSharp3 => 44,
            Note::A3 => 45,
            Note::ASharp3 => 46,
            Note::B3 => 47,
            Note::C4 => 48,
            Note::CSharp4 => 49,
            Note::D4 => 50,
            Note::DSharp4 => 51,
            Note::E4 => 52,
            Note::F4 => 53,
            Note::FSharp4 => 54,
            Note::G4 => 55,
            Note::GSharp4 => 56,
            Note::A4 => 57,
            Note::ASharp4 => 58,
            Note::B4 => 59,
            Note::C5 => 60,
            Note::CSharp5 => 61,
            Note::D5 => 62,
            Note::DSharp5 => 63,
            Note::E5 => 64,
            Note::F5 => 65,
            Note::FSharp5 => 66,
            Note::G5 => 67,
            Note::GSharp5 => 68,
            Note::A5 => 69,
            Note::ASharp5 => 70,
            Note::B5 => 71,
            Note::C6 => 72,
            Note::CSharp6 => 73,
            Note::D6 => 74,
            Note::DSharp6 => 75,
            Note::E6 => 76,
            Note::F6 => 77,
            Note::FSharp6 => 78,
            Note::G6 => 79,
            Note::GSharp6 => 80,
            Note::A6 => 81,
            Note::ASharp6 => 82,
            Note::B6 => 83,
            Note::C7 => 84,
            Note::CSharp7 => 85,
            Note::D7 => 86,
            Note::DSharp7 => 87,
            Note::E7 => 88,
            Note::F7 => 89,
            Note::FSharp7 => 90,
            Note::G7 => 91,
            Note::GSharp7 => 92,
            Note::A7 => 93,
            Note::ASharp7 => 94,
            Note::B7 => 95,
            Note::C8 => 96,
            Note::CSharp8 => 97,
            Note::D8 => 98,
            Note::DSharp8 => 99,
            Note::E8 => 100,
            Note::F8 => 101,
            Note::FSharp8 => 102,
            Note::G8 => 103,
            Note::GSharp8 => 104,
            Note::A8 => 105,
            Note::ASharp8 => 106,
            Note::B8 => 107,
            Note::C9 => 108,
            Note::CSharp9 => 109,
            Note::D9 => 110,
            Note::DSharp9 => 111,
            Note::E9 => 112,
            Note::F9 => 113,
            Note::FSharp9 => 114,
            Note::G9 => 115,
            Note::GSharp9 => 116,
            Note::A9 => 117,
            Note::ASharp9 => 118,
            Note::B9 => 119,
        }
    }

    /// The note at position `i`.
    pub fn from_index(i: usize) -> (r: Note)
        requires
            i < NOTE_COUNT,
        ensures
            r == note_at(i as int),
            r.position() == i,
    {
        match i {
            0 => Note::C0,
            1 => Note::CSharp0,
            2 => Note::D0,
            3 => Note::DSharp0,
            4 => Note::E0,
            5 => Note::F0,
            6 => Note::FSharp0,
            7 => Note::G0,
            8 => Note::GSharp0,
            9 => Note::A0,
            10 => Note::ASharp0,
            11 => Note::B0,
            12 => Note::C1,
            13 => Note::CSharp1,
            14 => Note::D1,
            15 => Note::DSharp1,
            16 => Note::E1,
            17 => Note::F1,
            18 => Note::FSharp1,
            19 => Note::G1,
            20 => Note::GSharp1,
            21 => Note::A1,
            22 => Note::ASharp1,
            23 => Note::B1,
            24 => Note::C2,
            25 => Note::CSharp2,
            26 => Note::D2,
            27 => Note::DSharp2,
            28 => Note::E2,
            29 => Note::F2,
            30 => Note::FSharp2,
            31 => Note::G2,
            32 => Note::GSharp2,
            33 => Note::A2,
            34 => Note::ASharp2,
            35 => Note::B2,
            36 => Note::C3,
            37 => Note::CSharp3,
            38 => Note::D3,
            39 => Note::DSharp3,
            40 => Note::E3,
            41 => Note::F3,
            42 => Note::FSharp3,
            43 => Note::G3,
            44 => Note::GSharp3,
            45 => Note::A3,
            46 => Note::ASharp3,
            47 => Note::B3,
            48 => Note::C4,
            49 => Note::CSharp4,
            50 => Note::D4,
            51 => Note::DSharp4,
            52 => Note::E4,
            53 => Note::F4,
            54 => Note::FSharp4,
            55 => Note::G4,
            56 => Note::GSharp4,
            57 => Note::A4,
            58 => Note::ASharp4,
            59 => Note::B4,
            60 => Note::C5,
            61 => Note::CSharp5,
            62 => Note::D5,
            63 => Note::DSharp5,
            64 => Note::E5,
            65 => Note::F5,
            66 => Note::FSharp5,
            67 => Note::G5,
            68 => Note::GSharp5,
            69 => Note::A5,
            70 => Note::ASharp5,
            71 => Note::B5,
            72 => Note::C6,
            73 => Note::CSharp6,
            74 => Note::D6,
            75 => Note::DSharp6,
            76 => Note::E6,
            77 => Note::F6,
            78 => Note::FSharp6,
            79 => Note::G6,
            80 => Note::GSharp6,
            81 => Note::A6,
            82 => Note::ASharp6,
            83 => Note::B6,
            84 => Note::C7,
            85 => Note::CSharp7,
            86 => Note::D7,
            87 => Note::DSharp7,
            88 => Note::E7,
            89 => Note::F7,
            90 => Note::FSharp7,
            91 => Note::G7,
            92 => Note::GSharp7,
            93 => Note::A7,
            94 => Note::ASharp7,
            95 => Note::B7,
            96 => Note::C8,
            97 => Note::CSharp8,
            98 => Note::D8,
            99 => Note::DSharp8,
            100 => Note::E8,
            101 => Note::F8,
            102 => Note::FSharp8,
            103 => Note::G8,
            104 => Note::GSharp8,
            105 => Note::A8,
            106 => Note::ASharp8,
            107 => Note::B8,
            108 => Note::C9,
            109 => Note::CSharp9,
            110 => Note::D9,
            111 => Note::DSharp9,
            112 => Note::E9,
            113 => Note::F9,
            114 => Note::FSharp9,
            115 => Note::G9,
            116 => Note::GSharp9,
            117 => Note::A9,
            118 => Note::ASharp9,
            119 => Note::B9,
            _ => Note::B9,
        }
    }
}


/// Law: a note's position and the note at that position determine each
/// other.
pub proof fn lemma_position_round_trip(n: Note)
    ensures
        n.position() < NOTE_COUNT,
        note_at(n.position() as int) == n,
{
}

/// Law: every position below `NOTE_COUNT` holds the note with that position.
pub proof fn lemma_note_at_round_trip(i: int)
    requires
        0 <= i < NOTE_COUNT,
    ensures
        note_at(i).position() == i,
{
}

/// The note name with pitch-class position `k`, sharps written `#`.
pub open spec fn name_position(s: Seq<char>) -> Option<nat> {
    if s == seq!['C'] {
        Some(0)
    } else if s == seq!['C', '#'] {
        Some(1)
    } else if s == seq!['D'] {
        Some(2)
    } else if s == seq!['D', '#'] {
        Some(3)
    } else if s == seq!['E'] {
        Some(4)
    } else if s == seq!['F'] {
        Some(5)
    } else if s == seq!['F', '#'] {
        Some(6)
    } else if s == seq!['G'] {
        Some(7)
    } else if s == seq!['G', '#'] {
        Some(8)
    } else if s == seq!['A'] {
        Some(9)
    } else if s == seq!['A', '#'] {
        Some(10)
    } else if s == seq!['B'] {
        Some(11)
    } else {
        None
    }
}

/// The note that a name such as `C4` or `F#2` denotes: a pitch-class name
/// followed by one octave digit.
pub open spec fn note_named(s: Seq<char>) -> Option<Note> {
    if s.len() == 0 {
        None
    } else if !('0' <= s.last() <= '9') {
        None
    } else {
        match name_position(s.drop_last()) {
            Some(k) => Some(note_at((s.last() as int - '0' as int) * 12 + k)),
            None => None,
        }
    }
}

/// An exact position and its spec counterpart agree.
pub open spec fn same_position(r: Option<u8>, q: Option<nat>) -> bool {
    match r {
        Some(p) => q == Some(p as nat),
        None => q is None,
    }
}

proof fn lemma_single_char(c: char, d: char)
    ensures
        (seq![c] == seq![d]) == (c == d),
{
    if c == d {
        assert(seq![c] =~= seq![d]);
    } else {
        assert(seq![c][0] != seq![d][0]);
    }
}

proof fn lemma_char_pair(c: char, d: char, e: char, f: char)
    ensures
        (seq![c, d] == seq![e, f]) == (c == e && d == f),
{
    if c == e && d == f {
        assert(seq![c, d] =~= seq![e, f]);
    } else if c != e {
        assert(seq![c, d][0] != seq![e, f][0]);
    } else {
        assert(seq![c, d][1] != seq![e, f][1]);
    }
}

/// The position of each of the twelve names.
proof fn lemma_name_positions()
    ensures
        name_position(seq!['C']) == Some(0nat),
        name_position(seq!['C', '#']) == Some(1nat),
        name_position(seq!['D']) == Some(2nat),
        name_position(seq!['D', '#']) == Some(3nat),
        name_position(seq!['E']) == Some(4nat),
        name_position(seq!['F']) == Some(5nat),
        name_position(seq!['F', '#']) == Some(6nat),
        name_position(seq!['G']) == Some(7nat),
        name_position(seq!['G', '#']) == Some(8nat),
        name_position(seq!['A']) == Some(9nat),
        name_position(seq!['A', '#']) == Some(10nat),
        name_position(seq!['B']) == Some(11nat),
{
    assert(seq!['C'].len() == 1);
    assert(seq!['C', '#'].len() == 2);
    assert(seq!['D'].len() == 1);
    assert(seq!['D', '#'].len() == 2);
    assert(seq!['E'].len() == 1);
    assert(seq!['F'].len() == 1);
    assert(seq!['F', '#'].len() == 2);
    assert(seq!['G'].len() == 1);
    assert(seq!['G', '#'].len() == 2);
    assert(seq!['A'].len() == 1);
    assert(seq!['A', '#'].len() == 2);
    assert(seq!['B'].len() == 1);
    lemma_single_char('D', 'C');
    lemma_char_pair('D', '#', 'C', '#');
    lemma_single_char('E', 'C');
    lemma_single_char('E', 'D');
    lemma_single_char('F', 'C');
    lemma_single_char('F', 'D');
    lemma_single_char('F', 'E');
    lemma_char_pair('F', '#', 'C', '#');
    lemma_char_pair('F', '#', 'D', '#');
    lemma_single_char('G', 'C');
    lemma_single_char('G', 'D');
    lemma_single_char('G', 'E');
    lemma_single_char('G', 'F');
    lemma_char_pair('G', '#', 'C', '#');
    lemma_char_pair('G', '#', 'D', '#');
    lemma_char_pair('G', '#', 'F', '#');
    lemma_single_char('A', 'C');
    lemma_single_char('A', 'D');
    lemma_single_char('A', 'E');
    lemma_single_char('A', 'F');
    lemma_single_char('A', 'G');
    lemma_char_pair('A', '#', 'C', '#');
    lemma_char_pair('A', '#', 'D', '#');
    lemma_char_pair('A', '#', 'F', '#');
    lemma_char_pair('A', '#', 'G', '#');
    lemma_single_char('B', 'C');
    lemma_single_char('B', 'D');
    lemma_single_char('B', 'E');
    lemma_single_char('B', 'F');
    lemma_single_char('B', 'G');
    lemma_single_char('B', 'A');
}

/// The pitch class of a note, read off its name: `C` is 0, `C#` 1, `D` 2,
/// and so on up to `B`, 11.
pub open spec fn pitch_class(n: Note) -> nat {
    match n {
        Note::C0 | Note::C1 | Note::C2 | Note::C3 | Note::C4 | Note::C5 | Note::C6 | Note::C7 | Note::C8 | Note::C9 => 0,
        Note::CSharp0 | Note::CSharp1 | Note::CSharp2 | Note::CSharp3 | Note::CSharp4 | Note::CSharp5 | Note::CSharp6 | Note::CSharp7 | Note::CSharp8 | Note::CSharp9 => 1,
        Note::D0 | Note::D1 | Note::D2 | Note::D3 | Note::D4 | Note::D5 | Note::D6 | Note::D7 | Note::D8 | Note::D9 => 2,
        Note::DSharp0 | Note::DSharp1 | Note::DSharp2 | Note::DSharp3 | Note::DSharp4 | Note::DSharp5 | Note::DSharp6 | Note::DSharp7 | Note::DSharp8 | Note::DSharp9 => 3,
        Note::E0 | Note::E1 | Note::E2 | Note::E3 | Note::E4 | Note::E5 | Note::E6 | Note::E7 | Note::E8 | Note::E9 => 4,
        Note::F0 | Note::F1 | Note::F2 | Note::F3 | Note::F4 | Note::F5 | Note::F6 | Note::F7 | Note::F8 | Note::F9 => 5,
        Note::FSharp0 | Note::FSharp1 | Note::FSharp2 | Note::FSharp3 | Note::FSharp4 | Note::FSharp5 | Note::FSharp6 | Note::FSharp7 | Note::FSharp8 | Note::FSharp9 => 6,
        Note::G0 | Note::G1 | Note::G2 | Note::G3 | Note::G4 | Note::G5 | Note::G6 | Note::G7 | Note::G8 | Note::G9 => 7,
        Note::GSharp0 | Note::GSharp1 | Note::GSharp2 | Note::GSharp3 | Note::GSharp4 | Note::GSharp5 | Note::GSharp6 | Note::GSharp7 | Note::GSharp8 | Note::GSharp9 => 8,
        Note::A0 | Note::A1 | Note::A2 | Note::A3 | Note::A4 | Note::A5 | Note::A6 | Note::A7 | Note::A8 | Note::A9 => 9,
        Note::ASharp0 | Note::ASharp1 | Note::ASharp2 | Note::ASharp3 | Note::ASharp4 | Note::ASharp5 | Note::ASharp6 | Note::ASharp7 | Note::ASharp8 | Note::ASharp9 => 10,
        Note::B0 | Note::B1 | Note::B2 | Note::B3 | Note::B4 | Note::B5 | Note::B6 | Note::B7 | Note::B8 | Note::B9 => 11,
    }
}

/// The octave of a note, read off the digit in its name.
pub open spec fn octave(n: Note) -> nat {
    match n {
        Note::C0 | Note::CSharp0 | Note::D0 | Note::DSharp0 | Note::E0 | Note::F0 | Note::FSharp0 | Note::G0 | Note::GSharp0 | Note::A0 | Note::ASharp0 | Note::B0 => 0,
        Note::C1 | Note::CSharp1 | Note::D1 | Note::DSharp1 | Note::E1 | Note::F1 | Note::FSharp1 | Note::G1 | Note::GSharp1 | Note::A1 | Note::ASharp1 | Note::B1 => 1,
        Note::C2 | Note::CSharp2 | Note::D2 | Note::DSharp2 | Note::E2 | Note::F2 | Note::FSharp2 | Note::G2 | Note::GSharp2 | Note::A2 | Note::ASharp2 | Note::B2 => 2,
        Note::C3 | Note::CSharp3 | Note::D3 | Note::DSharp3 | Note::E3 | Note::F3 | Note::FSharp3 | Note::G3 | Note::GSharp3 | Note::A3 | Note::ASharp3 | Note::B3 => 3,
        Note::C4 | Note::CSharp4 | Note::D4 | Note::DSharp4 | Note::E4 | Note::F4 | Note::FSharp4 | Note::G4 | Note::GSharp4 | Note::A4 | Note::ASharp4 | Note::B4 => 4,
        Note::C5 | Note::CSharp5 | Note::D5 | Note::DSharp5 | Note::E5 | Note::F5 | Note::FSharp5 | Note::G5 | Note::GSharp5 | Note::A5 | Note::ASharp5 | Note::B5 => 5,
        Note::C6 | Note::CSharp6 | Note::D6 | Note::DSharp6 | Note::E6 | Note::F6 | Note::FSharp6 | Note::G6 | Note::GSharp6 | Note::A6 | Note::ASharp6 | Note::B6 => 6,
        Note::C7 | Note::CSharp7 | Note::D7 | Note::DSharp7 | Note::E7 | Note::F7 | Note::FSharp7 | Note::G7 | Note::GSharp7 | Note::A7 | Note::ASharp7 | Note::B7 => 7,
        Note::C8 | Note::CSharp8 | Note::D8 | Note::DSharp8 | Note::E8 | Note::F8 | Note::FSharp8 | Note::G8 | Note::GSharp8 | Note::A8 | Note::ASharp8 | Note::B8 => 8,
        Note::C9 | Note::CSharp9 | Note::D9 | Note::DSharp9 | Note::E9 | Note::F9 | Note::FSharp9 | Note::G9 | Note::GSharp9 | Note::A9 | Note::ASharp9 | Note::B9 => 9,
    }
}
/// The name of pitch class `k`, sharps written `#`.
pub open spec fn pitch_name(k: nat) -> Seq<char> {
    if k == 0 {
        seq!['C']
    } else if k == 1 {
        seq!['C', '#']
    } else if k == 2 {
        seq!['D']
    } else if k == 3 {
        seq!['D', '#']
    } else if k == 4 {
        seq!['E']
    } else if k == 5 {
        seq!['F']
    } else if k == 6 {
        seq!['F', '#']
    } else if k == 7 {
        seq!['G']
    } else if k == 8 {
        seq!['G', '#']
    } else if k == 9 {
        seq!['A']
    } else if k == 10 {
        seq!['A', '#']
    } else {
        seq!['B']
    }
}

/// The digit that writes octave `o`, for `o` below 10.
pub open spec fn octave_digit(o: nat) -> char {
    if o == 0 {
        '0'
    } else if o == 1 {
        '1'
    } else if o == 2 {
        '2'
    } else if o == 3 {
        '3'
    } else if o == 4 {
        '4'
    } else if o == 5 {
        '5'
    } else if o == 6 {
        '6'
    } else if o == 7 {
        '7'
    } else if o == 8 {
        '8'
    } else {
        '9'
    }
}

/// The name of a note: its pitch-class name, then its octave digit.
pub open spec fn name_of(n: Note) -> Seq<char> {
    pitch_name(pitch_class(n)).push(octave_digit(octave(n)))
}

/// Law: a note's position is fixed by its name: twelve per octave below it,
/// plus its pitch class, and the note at that position is the note itself.
pub proof fn lemma_position_from_name(n: Note)
    ensures
        pitch_class(n) < 12,
        octave(n) < 10,
        n.position() == 12 * octave(n) + pitch_class(n),
        note_at((12 * octave(n) + pitch_class(n)) as int) == n,
{
}

/// Law: the name of every note denotes that note.
pub proof fn lemma_name_denotes_note(n: Note)
    ensures
        note_named(name_of(n)) == Some(n),
{
    lemma_position_from_name(n);
    lemma_name_positions();
    let s = name_of(n);
    let k = pitch_class(n);
    let o = octave(n);
    assert(s.drop_last() =~= pitch_name(k));
    assert(s.last() == octave_digit(o));
    assert(octave_digit(o) as int - '0' as int == o);
    assert(name_position(pitch_name(k)) == Some(k));
}

/// The pitch-class position of a natural note letter.
fn letter_position(c: char) -> (r: Option<u8>)
    ensures
        same_position(r, name_position(seq![c])),
{
    let r = if c == 'C' {
        Some(0)
    } else if c == 'D' {
        Some(2)
    } else if c == 'E' {
        Some(4)
    } else if c == 'F' {
        Some(5)
    } else if c == 'G' {
        Some(7)
    } else if c == 'A' {
        Some(9)
    } else if c == 'B' {
        Some(11)
    } else {
        None
    };
    proof {
        lemma_name_positions();
        lemma_single_char(c, 'C');
        lemma_single_char(c, 'D');
        lemma_single_char(c, 'E');
        lemma_single_char(c, 'F');
        lemma_single_char(c, 'G');
        lemma_single_char(c, 'A');
        lemma_single_char(c, 'B');
        assert(seq![c].len() == 1);
    }
    r
}

impl Note {
    /// Parses a note name such as `C4`, `C#4` or `A0`: one of `C`, `C#`, `D`,
    /// `D#`, `E`, `F`, `F#`, `G`, `G#`, `A`, `A#`, `B`, then an octave digit.
    /// Any other text has no note.
    pub fn from_name(note_name: &str) -> (r: Option<Note>)
        ensures
            r == note_named(note_name@),
    {
        let n = note_name.unicode_len();
        if n == 0 {
            return None;
        }
        let last = note_name.get_char(n - 1);
        if !('0' <= last && last <= '9') {
            return None;
        }
        let octave = (last as u32 - '0' as u32) as usize;
        let ghost s = note_name@;
        let ghost prefix = s.drop_last();
        let position: Option<u8> = if n == 2 {
            let c0 = note_name.get_char(0);
            proof {
                assert(prefix =~= seq![c0]);
            }
            let r = letter_position(c0);
            proof {
                assert(same_position(r, name_position(prefix)));
            }
            r
        } else if n == 3 {
            let c0 = note_name.get_char(0);
            let c1 = note_name.get_char(1);
            proof {
                assert(prefix =~= seq![c0, c1]);
                lemma_char_pair(c0, c1, 'C', '#');
                lemma_char_pair(c0, c1, 'D', '#');
                lemma_char_pair(c0, c1, 'F', '#');
                lemma_char_pair(c0, c1, 'G', '#');
                lemma_char_pair(c0, c1, 'A', '#');
                assert(prefix.len() == 2);
            }
            if c1 == '#' && (c0 == 'C' || c0 == 'D' || c0 == 'F' || c0 == 'G' || c0 == 'A') {
                match letter_position(c0) {
                    Some(p) => {
                        proof {
                            lemma_single_char(c0, 'C');
                            lemma_single_char(c0, 'D');
                            lemma_single_char(c0, 'F');
                            lemma_single_char(c0, 'G');
                            lemma_single_char(c0, 'A');
                            assert(prefix.len() == 2);
                            assert(prefix != seq!['C'] && prefix != seq!['D'] && prefix != seq!['E']);
                            assert(prefix != seq!['F'] && prefix != seq!['G'] && prefix != seq!['A']);
                            assert(prefix != seq!['B']);
                            assert(prefix == seq![c0, '#']);
                            lemma_name_positions();
                            if c0 == 'C' {
                                assert(seq![c0] == seq!['C']);
                                assert(p == 0);
                            } else if c0 == 'D' {
                                assert(seq![c0] == seq!['D']);
                                assert(p == 2);
                            } else if c0 == 'F' {
                                assert(seq![c0] == seq!['F']);
                                assert(p == 5);
                            } else if c0 == 'G' {
                                assert(seq![c0] == seq!['G']);
                                assert(p == 7);
                            } else {
                                assert(seq![c0] == seq!['A']);
                                assert(p == 9);
                            }
                            assert(same_position(Some((p + 1) as u8), name_position(prefix)));
                        }
                        Some(p + 1)
                    },
                    None => None,
                }
            } else {
                proof {
                    assert(prefix != seq!['C'] && prefix != seq!['D'] && prefix != seq!['E']);
                    assert(prefix != seq!['F'] && prefix != seq!['G'] && prefix != seq!['A']);
                    assert(prefix != seq!['B']);
                    assert(name_position(prefix) is None);
                }
                None
            }
        } else {
            proof {
                assert(prefix.len() != 1 && prefix.len() != 2);
                assert(name_position(prefix) is None);
            }
            None
        };
        proof {
            assert(octave == s.last() as int - '0' as int);
        }
        match position {
            Some(p) => {
                proof {
                    assert(name_position(prefix) == Some(p as nat));
                }
                let index = octave * 12 + p as usize;
                Some(Note::from_index(index))
            },
            None => None,
        }
    }

    /// The MIDI number of the note: its position plus 12, so that `C4` is 60.
    pub fn midi(&self) -> (m: MidiNote)
        ensures
            m@ == self.position() + MIDI_OFFSET,
            m@ == 12 * (octave(*self) + 1) + pitch_class(*self),
    {
        proof {
            lemma_position_from_name(*self);
        }
        MidiNote(self.index() + MIDI_OFFSET)
    }
}

/// A MIDI note number.
pub struct MidiNote(u8);

impl View for MidiNote {
    type V = u8;

    closed spec fn view(&self) -> u8 {
        self.0
    }
}

impl MidiNote {
    /// The MIDI number.
    pub fn number(&self) -> (n: u8)
        ensures
            n == self@,
    {
        self.0
    }

    /// The note with this MIDI number, if it lies in the ten octaves from
    /// `C0` (12) to `B9` (131).
    pub fn to_note(self) -> (r: Option<Note>)
        requires
            self@ >= MIDI_OFFSET,
        ensures
            self@ - MIDI_OFFSET < NOTE_COUNT ==> r == Some(note_at(self@ - MIDI_OFFSET)),
            self@ - MIDI_OFFSET >= NOTE_COUNT ==> r is None,
    {
        let index = (self.0 - MIDI_OFFSET) as usize;
        if index < NOTE_COUNT {
            Some(Note::from_index(index))
        } else {
            None
        }
    }
}

impl core::ops::Deref for MidiNote {
    type Target = u8;

    fn deref(&self) -> (r: &u8)
        ensures
            *r == self@,
    {
        &self.0
    }
}

/// Law: converting a note to its MIDI number and back gives the note.
pub proof fn lemma_midi_round_trip(n: Note, m: MidiNote)
    requires
        m@ == n.position() + MIDI_OFFSET,
    ensures
        m@ >= MIDI_OFFSET,
        m@ - MIDI_OFFSET < NOTE_COUNT,
        note_at(m@ - MIDI_OFFSET) == n,
{
    lemma_position_round_trip(n);
}

impl From<u8> for MidiNote {
    fn from(num: u8) -> (r: Self)
        ensures
            r@ == num,
    {
        MidiNote(num)
    }
}

impl vstd::std_specs::convert::FromSpecImpl<u8> for MidiNote {
    open spec fn obeys_from_spec() -> bool {
        true
    }

    closed spec fn from_spec(v: u8) -> MidiNote {
        MidiNote(v)
    }
}

impl vstd::std_specs::convert::FromSpecImpl<Note> for MidiNote {
    open spec fn obeys_from_spec() -> bool {
        true
    }

    closed spec fn from_spec(v: Note) -> MidiNote {
        MidiNote((v.position() + MIDI_OFFSET) as u8)
    }
}

impl From<Note> for MidiNote {
    fn from(note: Note) -> (r: Self)
        ensures
            r@ == note.position() + MIDI_OFFSET,
    {
        note.midi()
    }
}

} // verus!
