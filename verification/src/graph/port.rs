//! Ports: the inputs and outputs of nodes, and the keys that name them.
use vstd::prelude::*;
use super::node_id::{NodeId, is_id_alphabet_char, is_ascii_char, ascii_char};
use super::error::GraphError;
use crate::text::{
    before, chars_of, decimal, decimal_chars, digits_value, find_char, is_digit, is_ws, parse_usize,
    parse_usize_in, split_first, trim, trim_end, trim_start, trimmed, lemma_decimal_round_trip,
    lemma_parse_decimal, lemma_split_first_at, lemma_split_first_none,
};

verus! {

/// The index of a port among the inputs or outputs of a node.
pub type PortIndex = usize;

/// Whether a port is an input or an output.
#[derive(Debug, Clone, Copy, PartialEq, Eq, Hash, Structural)]
pub enum PortType {
    Input,
    Output,
}

/// A port of a node: node, index and direction.
#[derive(Debug, Copy, Clone, PartialEq, Eq, Hash)]
pub struct PortKey {
    pub node_id: NodeId,
    pub port_index: usize,
    pub port_type: PortType,
}

impl PortKey {
    pub fn new(node_id: NodeId, port_index: usize, port_type: PortType) -> (r: Self)
        ensures
            r == (PortKey { node_id, port_index, port_type }),
    {
        PortKey { node_id, port_index, port_type }
    }

    pub fn node_id(&self) -> (r: &NodeId)
        ensures
            *r == self.node_id,
    {
        &self.node_id
    }

    pub fn port_index(&self) -> (r: usize)
        ensures
            r == self.port_index,
    {
        self.port_index
    }

    pub fn port_type(&self) -> (r: PortType)
        ensures
            r == self.port_type,
    {
        self.port_type
    }
}

/// The text of a port direction in a port key.
pub open spec fn port_type_text(t: PortType) -> Seq<char> {
    match t {
        PortType::Input => seq!['i', 'n'],
        PortType::Output => seq!['o', 'u', 't'],
    }
}

/// The direction that a text names, if any.
pub open spec fn parse_port_type(s: Seq<char>) -> Option<PortType> {
    if s == seq!['i', 'n'] {
        Some(PortType::Input)
    } else if s == seq!['o', 'u', 't'] {
        Some(PortType::Output)
    } else {
        None
    }
}

/// The text of a port key: `<node id>[<in|out>:<index>]`.
pub open spec fn port_key_text(k: PortKey) -> Seq<char> {
    k.node_id@ + seq!['['] + port_type_text(k.port_type) + seq![':'] + decimal(
        k.port_index as nat,
    ) + seq![']']
}

/// Whether a text reads as a node identifier: eight bytes that are eight
/// characters, which is eight ASCII characters.
pub open spec fn node_id_text_ok(s: Seq<char>) -> bool {
    s.len() == 8 && forall|i: int| 0 <= i < 8 ==> is_ascii_char(#[trigger] s[i])
}

/// What a port key text denotes: the node identifier's characters, the
/// port index and the direction. The text before the first `[` is the node
/// identifier; after it, up to a further `[` or the first `]`, come the
/// direction and the index, separated by `:`, each trimmed of whitespace.
pub open spec fn parse_port_key(s: Seq<char>) -> Option<(Seq<char>, usize, PortType)> {
    match split_first(s, '[') {
        None => None,
        Some(halves) => {
            let id = trim(halves.0);
            let port_part = before(before(halves.1, '['), ']');
            match split_first(port_part, ':') {
                None => None,
                Some(fields) => {
                    let type_text = trim(fields.0);
                    let index_text = trim(before(fields.1, ':'));
                    if !node_id_text_ok(id) {
                        None
                    } else {
                        match (parse_usize(index_text), parse_port_type(type_text)) {
                            (Some(n), Some(t)) => Some((id, n, t)),
                            _ => None,
                        }
                    }
                },
            }
        },
    }
}

/// `String` from characters.
///
/// Collects the characters with `FromIterator<&char> for String`, which
/// std documents as appending each character in turn; the result holds
/// exactly the given characters.
#[verifier::external_body]
pub(crate) fn string_from_chars(v: &Vec<char>) -> (r: String)
    ensures
        r@ == v@,
{
    String::from_iter(v.iter())
}

/// Whether every character of `v` is ASCII.
fn all_ascii(v: &Vec<char>) -> (r: bool)
    ensures
        r == forall|i: int| 0 <= i < v@.len() ==> is_ascii_char(#[trigger] v@[i]),
{
    let mut k: usize = 0;
    while k < v.len()
        invariant
            k <= v@.len(),
            forall|j: int| 0 <= j < k ==> is_ascii_char(#[trigger] v@[j]),
        decreases v@.len() - k,
    {
        if !ascii_char(v[k]) {
            return false;
        }
        k = k + 1;
    }
    true
}

/// Pushes the characters of `t` onto `v`.
fn push_all(v: &mut Vec<char>, t: &Vec<char>)
    ensures
        final(v)@ == old(v)@ + t@,
{
    let mut i: usize = 0;
    while i < t.len()
        invariant
            i <= t@.len(),
            v@ == old(v)@ + t@.take(i as int),
        decreases t@.len() - i,
    {
        v.push(t[i]);
        i = i + 1;
        assert(v@ =~= old(v)@ + t@.take(i as int));
    }
    assert(t@.take(t@.len() as int) =~= t@);
}

impl PortKey {
    /// Reads a port key such as `abcdefgh[in:0]`, as `FromStr` does; a
    /// text that is not one gives `InvalidPortKey` with the text.
    #[verifier::rlimit(60)]
    #[verifier::spinoff_prover]
    pub fn parse(s: &str) -> (r: Result<PortKey, GraphError>)
        ensures
            match parse_port_key(s@) {
                Some(parts) => r matches Ok(k) && k.node_id@ == parts.0 && k.port_index == parts.1
                    && k.port_type == parts.2,
                None => r matches Err(GraphError::InvalidPortKey { key }) && key@ == s@,
            },
    {
        let v = chars_of(s);
        let n = v.len();
        let ghost sv = v@;
        let open = match find_char(&v, 0, n, '[') {
            Some(i) => i,
            None => {
                proof {
                    lemma_split_first_none(sv, '[');
                }
                return Err(GraphError::InvalidPortKey { key: s.to_owned() });
            },
        };
        proof {
            lemma_split_first_at(sv, '[', open as int);
            assert(sv.take(open as int) =~= sv.subrange(0, open as int));
        }
        let id = trimmed(&v, 0, open);
        let ghost rest = sv.skip(open + 1);
        let second_open = match find_char(&v, open + 1, n, '[') {
            Some(i) => i,
            None => n,
        };
        proof {
            if second_open < n {
                lemma_split_first_at(rest, '[', second_open - open - 1);
            } else {
                lemma_split_first_none(rest, '[');
            }
            assert(before(rest, '[') =~= sv.subrange(open + 1, second_open as int));
        }
        let ghost parts1 = sv.subrange(open + 1, second_open as int);
        let close = match find_char(&v, open + 1, second_open, ']') {
            Some(i) => i,
            None => second_open,
        };
        proof {
            if close < second_open {
                lemma_split_first_at(parts1, ']', close - open - 1);
            } else {
                lemma_split_first_none(parts1, ']');
            }
            assert(before(parts1, ']') =~= sv.subrange(open + 1, close as int));
        }
        let ghost port_part = sv.subrange(open + 1, close as int);
        let colon = match find_char(&v, open + 1, close, ':') {
            Some(i) => i,
            None => {
                proof {
                    lemma_split_first_none(port_part, ':');
                }
                return Err(GraphError::InvalidPortKey { key: s.to_owned() });
            },
        };
        proof {
            lemma_split_first_at(port_part, ':', colon - open - 1);
            assert(port_part.take(colon - open - 1) =~= sv.subrange(open + 1, colon as int));
            assert(port_part.skip(colon - open) =~= sv.subrange(colon + 1, close as int));
        }
        let type_text = trimmed(&v, open + 1, colon);
        let ghost tail = sv.subrange(colon + 1, close as int);
        let end = match find_char(&v, colon + 1, close, ':') {
            Some(i) => i,
            None => close,
        };
        proof {
            if end < close {
                lemma_split_first_at(tail, ':', end - colon - 1);
            } else {
                lemma_split_first_none(tail, ':');
            }
            assert(before(tail, ':') =~= sv.subrange(colon + 1, end as int));
        }
        let index_text = trimmed(&v, colon + 1, end);
        if id.len() != 8 {
            return Err(GraphError::InvalidPortKey { key: s.to_owned() });
        }
        if !all_ascii(&id) {
            return Err(GraphError::InvalidPortKey { key: s.to_owned() });
        }
        let port_index = match parse_usize_in(&index_text, 0, index_text.len()) {
            Some(x) => x,
            None => {
                proof {
                    assert(index_text@.subrange(0, index_text@.len() as int) =~= index_text@);
                }
                return Err(GraphError::InvalidPortKey { key: s.to_owned() });
            },
        };
        proof {
            assert(index_text@.subrange(0, index_text@.len() as int) =~= index_text@);
        }
        let port_type = if type_text.len() == 2 && type_text[0] == 'i' && type_text[1] == 'n' {
            proof {
                assert(type_text@ =~= seq!['i', 'n']);
            }
            PortType::Input
        } else if type_text.len() == 3 && type_text[0] == 'o' && type_text[1] == 'u'
            && type_text[2] == 't' {
            proof {
                assert(type_text@ =~= seq!['o', 'u', 't']);
            }
            PortType::Output
        } else {
            proof {
                if type_text@ == seq!['i', 'n'] {
                    assert(seq!['i', 'n'][0] == 'i' && seq!['i', 'n'][1] == 'n');
                }
                if type_text@ == seq!['o', 'u', 't'] {
                    assert(seq!['o', 'u', 't'][0] == 'o' && seq!['o', 'u', 't'][1] == 'u');
                    assert(seq!['o', 'u', 't'][2] == 't');
                }
                assert(parse_port_type(type_text@) is None);
            }
            return Err(GraphError::InvalidPortKey { key: s.to_owned() });
        };
        let node_id = NodeId::from_chars([id[0], id[1], id[2], id[3], id[4], id[5], id[6], id[7]]);
        proof {
            assert(node_id@ =~= id@);
        }
        Ok(PortKey { node_id, port_index, port_type })
    }

    /// The key's text, `<node id>[<in|out>:<index>]`, as `Display` writes
    /// it.
    pub fn to_key_string(&self) -> (r: String)
        ensures
            r@ == port_key_text(*self),
    {
        let mut v: Vec<char> = Vec::new();
        let id = self.node_id.chars();
        let mut i: usize = 0;
        while i < 8
            invariant
                i <= 8,
                id@ == self.node_id@,
                v@ == id@.take(i as int),
            decreases 8 - i,
        {
            v.push(id[i]);
            i = i + 1;
            assert(v@ =~= id@.take(i as int));
        }
        assert(id@.take(8) =~= id@);
        v.push('[');
        match self.port_type {
            PortType::Input => {
                v.push('i');
                v.push('n');
            },
            PortType::Output => {
                v.push('o');
                v.push('u');
                v.push('t');
            },
        }
        v.push(':');
        let digits = decimal_chars(self.port_index);
        push_all(&mut v, &digits);
        v.push(']');
        proof {
            assert(v@ =~= port_key_text(*self));
        }
        string_from_chars(&v)
    }
}

/// A text whose first and last characters are not whitespace is its own
/// trimming.
proof fn lemma_trim_unchanged(s: Seq<char>)
    requires
        s.len() > 0,
        !is_ws(s[0]),
        !is_ws(s.last()),
    ensures
        trim(s) == s,
{
    assert(trim_start(s) == s);
    assert(trim_end(s) == s);
}

/// Law: the text of a port key reads back as the key. This holds for node
/// identifiers of eight ASCII characters without `[` that neither start nor
/// end with whitespace, as every generated identifier is.
pub proof fn lemma_port_key_round_trip(k: PortKey)
    requires
        node_id_text_ok(k.node_id@),
        forall|i: int| 0 <= i < 8 ==> #[trigger] k.node_id@[i] != '[',
        !is_ws(k.node_id@[0]),
        !is_ws(k.node_id@[7]),
    ensures
        parse_port_key(port_key_text(k)) == Some((k.node_id@, k.port_index, k.port_type)),
{
    let id = k.node_id@;
    let ty = port_type_text(k.port_type);
    let dec = decimal(k.port_index as nat);
    lemma_decimal_round_trip(k.port_index as nat);
    lemma_parse_decimal(k.port_index);
    let text = port_key_text(k);
    let rest = ty + seq![':'] + dec + seq![']'];
    assert(text =~= id + seq!['['] + rest);
    // The first `[` ends the identifier.
    assert forall|j: int| 0 <= j < 8 implies text[j] != '[' by {
        assert(text[j] == id[j]);
    }
    lemma_split_first_at(text, '[', 8);
    assert(text.take(8) =~= id);
    assert(text.skip(9) =~= rest);
    lemma_trim_unchanged(id);
    // No further `[`.
    assert forall|j: int| 0 <= j < rest.len() implies rest[j] != '[' by {
        if j < ty.len() {
            assert(rest[j] == ty[j]);
        } else if j > ty.len() && j < ty.len() + 1 + dec.len() {
            assert(rest[j] == dec[j - ty.len() - 1]);
            assert(is_digit(dec[j - ty.len() - 1]));
        }
    }
    lemma_split_first_none(rest, '[');
    // The first `]` is the last character.
    let close = ty.len() + 1 + dec.len();
    assert forall|j: int| 0 <= j < close implies rest[j] != ']' by {
        if j < ty.len() {
            assert(rest[j] == ty[j]);
        } else if j > ty.len() {
            assert(rest[j] == dec[j - ty.len() - 1]);
            assert(is_digit(dec[j - ty.len() - 1]));
        }
    }
    lemma_split_first_at(rest, ']', close as int);
    let port_part = ty + seq![':'] + dec;
    assert(rest.take(close as int) =~= port_part);
    // The first `:` separates the direction from the index.
    assert forall|j: int| 0 <= j < ty.len() implies port_part[j] != ':' by {
        assert(port_part[j] == ty[j]);
    }
    lemma_split_first_at(port_part, ':', ty.len() as int);
    assert(port_part.take(ty.len() as int) =~= ty);
    assert(port_part.skip((ty.len() + 1) as int) =~= dec);
    assert forall|j: int| 0 <= j < dec.len() implies dec[j] != ':' by {
        assert(is_digit(dec[j]));
    }
    lemma_split_first_none(dec, ':');
    lemma_trim_unchanged(ty);
    assert(is_digit(dec[0]) && is_digit(dec.last()));
    lemma_trim_unchanged(dec);
}

/// Law: the text of a key whose node identifier was generated reads back as
/// the key.
pub proof fn lemma_generated_key_round_trip(k: PortKey)
    requires
        k.node_id@.len() == 8,
        forall|i: int| 0 <= i < 8 ==> is_id_alphabet_char(#[trigger] k.node_id@[i]),
    ensures
        parse_port_key(port_key_text(k)) == Some((k.node_id@, k.port_index, k.port_type)),
{
    assert(is_id_alphabet_char(k.node_id@[0]));
    assert(is_id_alphabet_char(k.node_id@[7]));
    lemma_port_key_round_trip(k);
}

impl core::str::FromStr for PortKey {
    type Err = GraphError;

    fn from_str(s: &str) -> (r: Result<Self, Self::Err>)
        ensures
            match parse_port_key(s@) {
                Some(parts) => r matches Ok(k) && k.node_id@ == parts.0 && k.port_index == parts.1
                    && k.port_type == parts.2,
                None => r matches Err(GraphError::InvalidPortKey { key }) && key@ == s@,
            },
    {
        PortKey::parse(s)
    }
}

/// A port together with its name.
#[derive(Clone, Debug)]
pub struct PortInfo {
    pub portkey: PortKey,
    pub name: &'static str,
}

impl PortInfo {
    pub fn new(node_id: NodeId, port_index: usize, port_type: PortType, name: &'static str) -> (r: Self)
        ensures
            r.portkey == (PortKey { node_id, port_index, port_type }),
            r.name == name,
    {
        PortInfo { portkey: PortKey::new(node_id, port_index, port_type), name }
    }

    pub fn node_id(&self) -> (r: &NodeId)
        ensures
            *r == self.portkey.node_id,
    {
        &self.portkey.node_id
    }

    pub fn port_index(&self) -> (r: usize)
        ensures
            r == self.portkey.port_index,
    {
        self.portkey.port_index
    }

    pub fn port_type(&self) -> (r: PortType)
        ensures
            r == self.portkey.port_type,
    {
        self.portkey.port_type
    }

    pub fn key(&self) -> (r: &PortKey)
        ensures
            *r == self.portkey,
    {
        &self.portkey
    }

    pub fn name(&self) -> (r: &'static str)
        ensures
            r == self.name,
    {
        self.name
    }
}

} // verus!
