//! Node identifiers: eight characters, random when generated.
use vstd::prelude::*;
use vstd::string::StringSliceAdditionalSpecFns;
use crate::text::{decimal, decimal_chars, push_str, push_chars};
use super::port::string_from_chars;

verus! {

broadcast use vstd::array::group_array_axioms;

/// The characters that generated identifiers are drawn from: ASCII letters,
/// digits, `_` and `-`.
pub open spec fn is_id_alphabet_char(c: char) -> bool {
    ||| c == '_'
    ||| c == '-'
    ||| ('0' <= c <= '9')
    ||| ('a' <= c <= 'z')
    ||| ('A' <= c <= 'Z')
}

/// Eight random characters from nanoid's URL-safe alphabet.
///
/// Calls `nanoid::format` with `nanoid::rngs::default` and
/// `nanoid::alphabet::SAFE`, as the `nanoid!(8)` macro does. Its source
/// pushes characters of the given alphabet, one at a time, until the string
/// is eight bytes long; the alphabet is ASCII, so that is eight characters.
/// Which characters come out is left open: they are random.
#[verifier::external_body]
fn random_id_chars() -> (r: Vec<char>)
    ensures
        r.len() == 8,
        forall|i: int| 0 <= i < 8 ==> is_id_alphabet_char(#[trigger] r[i]),
{
    nanoid::format(nanoid::rngs::default, &nanoid::alphabet::SAFE, 8).chars().collect()
}

/// Why a text is not a node identifier.
#[derive(Debug, Clone, PartialEq, Eq)]
pub enum NodeIdError {
    /// The text is not eight bytes long; the byte length is given.
    WrongLength(usize),
    /// The text is eight bytes long but not eight ASCII characters.
    NotEightChars,
}

/// A node identifier: eight ASCII characters.
#[derive(Copy, Clone, PartialEq, Eq, Hash, Debug)]
pub struct NodeId([char; 8]);

/// An ASCII character: its code is below 128.
pub open spec fn is_ascii_char(c: char) -> bool {
    (c as u32) < 128
}

/// Whether `c` is an ASCII character.
pub fn ascii_char(c: char) -> (r: bool)
    ensures
        r == is_ascii_char(c),
{
    (c as u32) < 128
}

/// Eight ASCII characters.
pub open spec fn is_ascii_id(s: Seq<char>) -> bool {
    s.len() == 8 && forall|i: int| 0 <= i < 8 ==> is_ascii_char(#[trigger] s[i])
}

/// The characters of generated identifiers are ASCII.
proof fn lemma_alphabet_ascii(c: char)
    requires
        is_id_alphabet_char(c),
    ensures
        is_ascii_char(c),
{
}

/// The code of a character, as a `u64`.
pub open spec fn code(c: char) -> u64 {
    (c as u32) as u64
}

/// The number that packs eight ASCII characters, seven bits each, the
/// first character in the lowest bits.
pub open spec fn node_key(s: Seq<char>) -> u64 {
    code(s[0]) | (code(s[1]) << 7u64) | (code(s[2]) << 14u64) | (code(s[3]) << 21u64) | (code(s[4])
        << 28u64) | (code(s[5]) << 35u64) | (code(s[6]) << 42u64) | (code(s[7]) << 49u64)
}

/// Law: distinct identifiers of ASCII characters have distinct keys.
pub proof fn lemma_node_key_injective(a: Seq<char>, b: Seq<char>)
    requires
        is_ascii_id(a),
        is_ascii_id(b),
        node_key(a) == node_key(b),
    ensures
        a == b,
{
    let (a0, a1, a2, a3, a4, a5, a6, a7) = (code(a[0]), code(a[1]), code(a[2]), code(a[3]), code(a[4]), code(a[5]), code(a[6]), code(a[7]));
    let (b0, b1, b2, b3, b4, b5, b6, b7) = (code(b[0]), code(b[1]), code(b[2]), code(b[3]), code(b[4]), code(b[5]), code(b[6]), code(b[7]));
    assert(is_ascii_char(a[0]) && is_ascii_char(a[1]) && is_ascii_char(a[2]) && is_ascii_char(a[3]));
    assert(is_ascii_char(a[4]) && is_ascii_char(a[5]) && is_ascii_char(a[6]) && is_ascii_char(a[7]));
    assert(is_ascii_char(b[0]) && is_ascii_char(b[1]) && is_ascii_char(b[2]) && is_ascii_char(b[3]));
    assert(is_ascii_char(b[4]) && is_ascii_char(b[5]) && is_ascii_char(b[6]) && is_ascii_char(b[7]));
    assert(a0 == b0 && a1 == b1 && a2 == b2 && a3 == b3 && a4 == b4 && a5 == b5 && a6 == b6 && a7 == b7)
        by (bit_vector)
        requires
            a0 < 128u64 && a1 < 128u64 && a2 < 128u64 && a3 < 128u64,
            a4 < 128u64 && a5 < 128u64 && a6 < 128u64 && a7 < 128u64,
            b0 < 128u64 && b1 < 128u64 && b2 < 128u64 && b3 < 128u64,
            b4 < 128u64 && b5 < 128u64 && b6 < 128u64 && b7 < 128u64,
            a0 | (a1 << 7u64) | (a2 << 14u64) | (a3 << 21u64) | (a4 << 28u64) | (a5 << 35u64) | (a6
                << 42u64) | (a7 << 49u64) == b0 | (b1 << 7u64) | (b2 << 14u64) | (b3 << 21u64) | (b4
                << 28u64) | (b5 << 35u64) | (b6 << 42u64) | (b7 << 49u64),
    ;
    assert forall|i: int| 0 <= i < 8 implies a[i] == b[i] by {
        assert(code(a[i]) == code(b[i]));
        vstd::utf8::char_u32_cast(a[i], a[i] as u32);
        vstd::utf8::char_u32_cast(b[i], b[i] as u32);
    }
    assert(a =~= b);
}

impl View for NodeId {
    type V = Seq<char>;

    closed spec fn view(&self) -> Seq<char> {
        self.0@
    }
}

/// Outcome of reading a node identifier from text `s`, given as characters
/// and as its UTF-8 byte length.
pub open spec fn parse_node_id(s: Seq<char>, byte_len: nat) -> Result<Seq<char>, NodeIdError> {
    if byte_len != 8 {
        Err(NodeIdError::WrongLength(byte_len as usize))
    } else if !is_ascii_id(s) {
        Err(NodeIdError::NotEightChars)
    } else {
        Ok(s)
    }
}

/// Law: any text of eight bytes that is eight ASCII characters reads back as
/// exactly those characters.
pub proof fn lemma_ascii_ids_parse(s: Seq<char>)
    requires
        s.len() == 8,
        forall|i: int| 0 <= i < 8 ==> (#[trigger] s[i] as u32) < 128,
    ensures
        parse_node_id(s, 8) == Ok::<Seq<char>, NodeIdError>(s),
{
    assert(is_ascii_id(s));
}

/// Law: every identifier of the kind `NodeId::new` generates (eight
/// characters of the URL-safe alphabet, `_` and `-` among them) reads back
/// from its text.
pub proof fn lemma_generated_ids_parse(s: Seq<char>)
    requires
        s.len() == 8,
        forall|i: int| 0 <= i < 8 ==> is_id_alphabet_char(#[trigger] s[i]),
    ensures
        parse_node_id(s, 8) == Ok::<Seq<char>, NodeIdError>(s),
{
    assert forall|i: int| 0 <= i < 8 implies (#[trigger] s[i] as u32) < 128 by {
        lemma_alphabet_ascii(s[i]);
    }
    lemma_ascii_ids_parse(s);
}

impl NodeId {
    /// Every character is ASCII.
    #[verifier::type_invariant]
    spec fn ascii(self) -> bool {
        is_ascii_id(self.0@)
    }

    /// The identifier's key: its characters packed into a number.
    pub fn key(&self) -> (r: u64)
        ensures
            r == node_key(self@),
            is_ascii_id(self@),
    {
        proof {
            use_type_invariant(self);
        }
        let c = &self.0;
        (c[0] as u32 as u64) | ((c[1] as u32 as u64) << 7u64) | ((c[2] as u32 as u64) << 14u64) | ((
        c[3] as u32 as u64) << 21u64) | ((c[4] as u32 as u64) << 28u64) | ((c[5] as u32 as u64)
            << 35u64) | ((c[6] as u32 as u64) << 42u64) | ((c[7] as u32 as u64) << 49u64)
    }

    /// Law: two identifiers are equal exactly when their characters are.
    pub proof fn lemma_view_injective(a: NodeId, b: NodeId)
        ensures
            (a == b) == (a@ == b@),
    {
        if a@ == b@ {
            assert(a.0 =~= b.0);
        }
    }

    /// A fresh identifier of eight random characters from the URL-safe
    /// alphabet.
    pub fn new() -> (r: NodeId)
        ensures
            r@.len() == 8,
            forall|i: int| 0 <= i < 8 ==> is_id_alphabet_char(#[trigger] r@[i]),
    {
        let v = random_id_chars();
        proof {
            assert forall|i: int| 0 <= i < 8 implies is_ascii_char(#[trigger] v@[i]) by {
                lemma_alphabet_ascii(v[i]);
            }
        }
        let r = NodeId([v[0], v[1], v[2], v[3], v[4], v[5], v[6], v[7]]);
        proof {
            assert forall|i: int| 0 <= i < 8 implies is_id_alphabet_char(#[trigger] r@[i]) by {
                assert(r@[i] == v[i]);
            }
        }
        r
    }

    /// The identifier made of the eight given ASCII characters.
    pub fn from_chars(chars: [char; 8]) -> (r: NodeId)
        requires
            forall|i: int| 0 <= i < 8 ==> is_ascii_char(#[trigger] chars@[i]),
        ensures
            r@ == chars@,
    {
        NodeId(chars)
    }

    /// The eight characters.
    pub fn chars(&self) -> (r: [char; 8])
        ensures
            r@ == self@,
    {
        self.0
    }

    /// Reads an identifier from text that is eight bytes long and eight
    /// ASCII characters.
    pub fn parse(s: &str) -> (r: Result<NodeId, NodeIdError>)
        ensures
            match parse_node_id(s@, (s.spec_bytes().len() as usize) as nat) {
                Ok(chars) => r is Ok && r->Ok_0@ == chars,
                Err(e) => r == Err::<NodeId, NodeIdError>(e),
            },
            s.spec_bytes().len() == 8 && s@.len() == 8 && (forall|i: int|
                0 <= i < 8 ==> (#[trigger] s@[i] as u32) < 128) ==> r is Ok && r->Ok_0@ == s@,
    {
        let byte_len = s.len();
        if byte_len != 8 {
            return Err(NodeIdError::WrongLength(byte_len));
        }
        let n = s.unicode_len();
        if n != 8 {
            return Err(NodeIdError::NotEightChars);
        }
        let mut i: usize = 0;
        while i < 8
            invariant
                i <= 8,
                s@.len() == 8,
                byte_len == 8,
                byte_len as nat == (s.spec_bytes().len() as usize) as nat,
                forall|j: int| 0 <= j < i ==> is_ascii_char(#[trigger] s@[j]),
            decreases 8 - i,
        {
            if !ascii_char(s.get_char(i)) {
                proof {
                    assert(!is_ascii_char(s@[i as int]));
                    assert(!is_ascii_id(s@));
                }
                return Err(NodeIdError::NotEightChars);
            }
            i = i + 1;
        }
        let chars = [
            s.get_char(0),
            s.get_char(1),
            s.get_char(2),
            s.get_char(3),
            s.get_char(4),
            s.get_char(5),
            s.get_char(6),
            s.get_char(7),
        ];
        let r = NodeId(chars);
        proof {
            assert(r@ =~= s@);
        }
        Ok(r)
    }

    /// Tells whether two identifiers are equal.
    pub fn equals(&self, other: &NodeId) -> (r: bool)
        ensures
            r == (*self == *other),
    {
        let a = &self.0;
        let b = &other.0;
        let r = a[0] == b[0] && a[1] == b[1] && a[2] == b[2] && a[3] == b[3] && a[4] == b[4]
            && a[5] == b[5] && a[6] == b[6] && a[7] == b[7];
        proof {
            if r {
                assert(self.0 =~= other.0);
            } else {
                assert(self.0 != other.0);
            }
        }
        r
    }
}

/// The text of a refusal to read a node identifier.
pub open spec fn node_id_error_text(e: NodeIdError) -> Seq<char> {
    match e {
        NodeIdError::WrongLength(n) => "NodeId must be 8 characters long, got "@ + decimal(n as nat),
        NodeIdError::NotEightChars => "Failed to parse NodeId"@,
    }
}

impl NodeIdError {
    /// The message that says why the text is no node identifier.
    pub fn message(&self) -> (r: String)
        ensures
            r@ == node_id_error_text(*self),
    {
        let mut v: Vec<char> = Vec::new();
        match self {
            NodeIdError::WrongLength(n) => {
                push_str(&mut v, "NodeId must be 8 characters long, got ");
                let digits = decimal_chars(*n);
                push_chars(&mut v, &digits);
            },
            NodeIdError::NotEightChars => {
                push_str(&mut v, "Failed to parse NodeId");
            },
        }
        string_from_chars(&v)
    }
}

/// Reads a node identifier; a refusal comes with its message.
fn parse_with_message(s: &str) -> (r: Result<NodeId, String>)
    ensures
        match parse_node_id(s@, (s.spec_bytes().len() as usize) as nat) {
            Ok(chars) => r is Ok && r->Ok_0@ == chars,
            Err(e) => r is Err && r->Err_0@ == node_id_error_text(e),
        },
        s.spec_bytes().len() == 8 && s@.len() == 8 && (forall|i: int|
            0 <= i < 8 ==> (#[trigger] s@[i] as u32) < 128) ==> r is Ok && r->Ok_0@ == s@,
{
    match NodeId::parse(s) {
        Ok(id) => Ok(id),
        Err(e) => Err(e.message()),
    }
}

impl core::str::FromStr for NodeId {
    type Err = String;

    fn from_str(s: &str) -> (r: Result<Self, Self::Err>)
        ensures
            match parse_node_id(s@, (s.spec_bytes().len() as usize) as nat) {
                Ok(chars) => r is Ok && r->Ok_0@ == chars,
                Err(e) => r is Err && r->Err_0@ == node_id_error_text(e),
            },
            s.spec_bytes().len() == 8 && s@.len() == 8 && (forall|i: int|
                0 <= i < 8 ==> (#[trigger] s@[i] as u32) < 128) ==> r is Ok && r->Ok_0@ == s@,
    {
        parse_with_message(s)
    }
}

impl core::convert::TryFrom<String> for NodeId {
    type Error = String;

    fn try_from(s: String) -> (r: Result<Self, Self::Error>)
        ensures
            match parse_node_id(s@, (vstd::utf8::encode_utf8(s@).len() as usize) as nat) {
                Ok(chars) => r is Ok && r->Ok_0@ == chars,
                Err(e) => r is Err && r->Err_0@ == node_id_error_text(e),
            },
            vstd::utf8::encode_utf8(s@).len() == 8 && s@.len() == 8 && (forall|i: int|
                0 <= i < 8 ==> (#[trigger] s@[i] as u32) < 128) ==> r is Ok && r->Ok_0@ == s@,
    {
        let t = s.as_str();
        proof {
            assert(t@ == s@);
            assert(t.spec_bytes() == vstd::utf8::encode_utf8(s@));
        }
        let r = parse_with_message(t);
        proof {
            assert(parse_node_id(t@, (t.spec_bytes().len() as usize) as nat) == parse_node_id(
                s@,
                (vstd::utf8::encode_utf8(s@).len() as usize) as nat,
            ));
        }
        r
    }
}

impl vstd::std_specs::convert::TryFromSpecImpl<String> for NodeId {
    /// The result is pinned down only up to its characters (a `String` is
    /// known by its characters alone), so `try_from` follows its own
    /// `ensures` rather than this value exactly.
    open spec fn obeys_try_from_spec() -> bool {
        false
    }

    open spec fn try_from_spec(v: String) -> Result<NodeId, String> {
        match parse_node_id(v@, (vstd::utf8::encode_utf8(v@).len() as usize) as nat) {
            Ok(chars) => Ok(choose|id: NodeId| id@ == chars),
            Err(e) => Err(choose|m: String| m@ == node_id_error_text(e)),
        }
    }
}

impl Default for NodeId {
    /// A fresh random identifier, as `NodeId::new` gives.
    fn default() -> (r: Self)
        ensures
            r@.len() == 8,
            forall|i: int| 0 <= i < 8 ==> is_id_alphabet_char(#[trigger] r@[i]),
    {
        NodeId::new()
    }
}

} // verus!
