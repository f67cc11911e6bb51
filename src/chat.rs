//! The two text types built on bounded strings: chat payloads and
//! namespaced identifiers.
use vstd::prelude::*;
use vstd::string::{StrSliceExecFns, StringExecFns};
use crate::bstring::{BoundedString, string_parse, string_wire};
use crate::serial::{Decode, DecodeError, Decoder, Encode, EncodeError, Encoder};

verus! {

/// A chat component: JSON text of at most 262 144 characters, which this
/// library passes through without reading.
#[derive(Debug, Clone, PartialEq, Eq)]
pub struct Chat {
    pub value: BoundedString<262144>,
}

impl View for Chat {
    type V = Seq<char>;

    open spec fn view(&self) -> Seq<char> {
        self.value@
    }
}

impl Chat {
    pub open spec fn wf(&self) -> bool {
        self.value.wf()
    }

    /// `value` as a chat payload, or `None` where it is too long.
    pub fn new(value: String) -> (r: Option<Chat>)
        ensures
            r is Some <==> value@.len() <= 262144,
            r matches Some(c) ==> c@ == value@ && c.wf(),
    {
        match BoundedString::<262144>::new(value) {
            Some(b) => Some(Chat { value: b }),
            None => None,
        }
    }
}

impl Encode for Chat {
    open spec fn wire(&self) -> Seq<u8> {
        string_wire(self@)
    }

    fn encode(&self, encoder: &mut Encoder) -> (r: Result<(), EncodeError>) {
        self.value.encode(encoder)
    }
}

impl Decode for Chat {
    open spec fn parse(bytes: Seq<u8>) -> Result<(Seq<char>, nat), DecodeError> {
        string_parse(bytes, 262144)
    }

    fn decode(decoder: &mut Decoder) -> (r: Result<Chat, DecodeError>) {
        match BoundedString::<262144>::decode(decoder) {
            Ok(value) => Ok(Chat { value }),
            Err(e) => Err(e),
        }
    }
}

/// A character that may stand in a namespace or a path.
pub open spec fn identifier_char(c: char) -> bool {
    ('a' <= c && c <= 'z') || ('0' <= c && c <= '9') || c == '_' || c == '.' || c == '/' || c
        == '-'
}

/// Every character of `s` may stand in an identifier part.
pub open spec fn identifier_part(s: Seq<char>) -> bool {
    forall|i: int| 0 <= i < s.len() ==> identifier_char(#[trigger] s[i])
}

/// The index of the first `:` of `s` at or after `i`, or `s.len()`.
pub open spec fn colon_from(s: Seq<char>, i: nat) -> nat
    decreases s.len() - i,
{
    if i >= s.len() {
        s.len()
    } else if s[i as int] == ':' {
        i
    } else {
        colon_from(s, i + 1)
    }
}

/// The index found lies between `i` and the end of `s`.
pub proof fn lemma_colon_from_bounds(s: Seq<char>, i: nat)
    requires
        i <= s.len(),
    ensures
        i <= colon_from(s, i) <= s.len(),
    decreases s.len() - i,
{
    if i < s.len() && s[i as int] != ':' {
        lemma_colon_from_bounds(s, i + 1);
    }
}

/// The index of the first `:` of `s`, or `s.len()`.
pub open spec fn first_colon(s: Seq<char>) -> nat {
    colon_from(s, 0)
}

/// The namespace that `s` names: the text before its first `:`, or
/// `minecraft` where it has none.
pub open spec fn identifier_namespace(s: Seq<char>) -> Seq<char> {
    if first_colon(s) == s.len() {
        "minecraft"@
    } else {
        s.take(first_colon(s) as int)
    }
}

/// The path that `s` names: the text between its first and second `:`, or
/// all of it where it has no `:`.
pub open spec fn identifier_path(s: Seq<char>) -> Seq<char> {
    if first_colon(s) == s.len() {
        s
    } else {
        let after = s.skip(first_colon(s) + 1int);
        after.take(first_colon(after) as int)
    }
}

/// The full `namespace:path` text of the identifier that `s` names.
pub open spec fn identifier_text(s: Seq<char>) -> Seq<char> {
    identifier_namespace(s) + seq![':'] + identifier_path(s)
}

/// A resource name of the form `namespace:path`.
#[derive(Debug, Clone, PartialEq, Eq)]
pub struct Identifier(BoundedString<32767>);

impl View for Identifier {
    type V = Seq<char>;

    closed spec fn view(&self) -> Seq<char> {
        self.0@
    }
}

/// The index of the first `:` in `s` at or after `start`, or its length.
fn find_colon(s: &str, start: usize) -> (r: usize)
    requires
        start <= s@.len(),
    ensures
        r == colon_from(s@, start as nat),
        start <= r <= s@.len(),
{
    proof {
        lemma_colon_from_bounds(s@, start as nat);
    }
    let n = s.unicode_len();
    let mut i = start;
    while i < n
        invariant
            start <= i <= n,
            n == s@.len(),
            colon_from(s@, start as nat) == colon_from(s@, i as nat),
        decreases n - i,
    {
        if s.get_char(i) == ':' {
            return i;
        }
        i = i + 1;
    }
    i
}

/// Whether every character of `s` may stand in an identifier part.
fn all_identifier_chars(s: &str) -> (r: bool)
    ensures
        r == identifier_part(s@),
{
    let n = s.unicode_len();
    let mut i: usize = 0;
    while i < n
        invariant
            i <= n,
            n == s@.len(),
            forall|j: int| 0 <= j < i ==> identifier_char(#[trigger] s@[j]),
        decreases n - i,
    {
        let c = s.get_char(i);
        if !(('a' <= c && c <= 'z') || ('0' <= c && c <= '9') || c == '_' || c == '.' || c == '/'
            || c == '-') {
            return false;
        }
        i = i + 1;
    }
    true
}

impl Identifier {
    /// The identifier that `value` names, with the namespace `minecraft`
    /// where it gives none; `None` where a part holds a character outside
    /// `a-z 0-9 _ . / -` or the text is over 32 767 characters.
    pub fn new(value: &str) -> (r: Option<Identifier>)
        ensures
            r is Some <==> identifier_part(identifier_namespace(value@)) && identifier_part(
                identifier_path(value@),
            ) && identifier_text(value@).len() <= 32767,
            r matches Some(id) ==> id@ == identifier_text(value@),
    {
        let n = value.unicode_len();
        let colon = find_colon(value, 0);
        let namespace: &str;
        let path: &str;
        if colon == n {
            namespace = "minecraft";
            path = value;
        } else {
            namespace = value.substring_char(0, colon);
            let after = value.substring_char(colon + 1, n);
            let end = find_colon(after, 0);
            path = after.substring_char(0, end);
        }
        assert(namespace@ == identifier_namespace(value@));
        assert(path@ == identifier_path(value@));
        if !all_identifier_chars(namespace) || !all_identifier_chars(path) {
            return None;
        }
        proof {
            reveal_strlit(":");
        }
        let text = String::from_str(namespace).concat(":").concat(path);
        assert(text@ == identifier_text(value@));
        match BoundedString::<32767>::new(text) {
            Some(b) => Some(Identifier(b)),
            None => None,
        }
    }

    /// The `namespace:path` text.
    pub fn into_string(self) -> (r: String)
        ensures
            r@ == self@,
    {
        self.0.into_string()
    }
}

} // verus!
