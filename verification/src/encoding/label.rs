use vstd::prelude::*;
use vstd::std_specs::cmp::PartialEqSpecImpl;
use vstd::string::*;
use vstd::utf8::*;

verus! {

/// The tag byte that opens every key of the index from labels to types.
pub const LABEL_INDEX_TAG: u8 = 60;

/// The position of the first colon of `text` at or after `from`, if there is one.
pub open spec fn colon_index(text: Seq<char>, from: int) -> Option<int>
    decreases text.len() - from,
{
    if from < 0 || from >= text.len() {
        None
    } else if text[from] == ':' {
        Some(from)
    } else {
        colon_index(text, from + 1)
    }
}

/// The part of a scoped name that names the type itself: what follows the first colon, or
/// all of it where there is no colon.
pub open spec fn name_of(text: Seq<char>) -> Seq<char> {
    match colon_index(text, 0) {
        Some(at) => text.subrange(at + 1, text.len() as int),
        None => text,
    }
}

/// The part of a scoped name that names the scope: what precedes the first colon.
pub open spec fn scope_of(text: Seq<char>) -> Option<Seq<char>> {
    match colon_index(text, 0) {
        Some(at) => Some(text.subrange(0, at)),
        None => None,
    }
}

/// The scoped name made of a scope and a name.
pub open spec fn scoped(scope: Seq<char>, name: Seq<char>) -> Seq<char> {
    scope + seq![':'] + name
}

/// The key of the index entry that leads from the label `text` to its type.
pub open spec fn label_index_key(text: Seq<char>) -> Seq<u8> {
    seq![60u8] + encode_utf8(text)
}

/// The label that an index key spells, if it spells one.
pub open spec fn label_of_index_key(key: Seq<u8>) -> Option<Seq<char>> {
    if key.len() >= 1 && key[0] == 60 && valid_utf8(key.subrange(1, key.len() as int)) {
        Some(decode_utf8(key.subrange(1, key.len() as int)))
    } else {
        None
    }
}

/// Decoding the index key of a label gives the label back.
pub broadcast proof fn lemma_label_index_key_decodes(text: Seq<char>)
    ensures
        #![trigger label_index_key(text)]
        label_index_key(text).len() >= 1,
        label_index_key(text)[0] == 60,
        label_of_index_key(label_index_key(text)) == Some(text),
{
    let key = label_index_key(text);
    assert(key.subrange(1, key.len() as int) =~= encode_utf8(text));
    encode_utf8_valid_utf8(text);
    encode_utf8_decode_utf8(text);
}

/// Where `colon_index` finds a colon, it is the first one.
pub proof fn lemma_colon_index(text: Seq<char>, from: int)
    requires
        0 <= from,
    ensures
        match colon_index(text, from) {
            Some(at) => from <= at < text.len() && text[at] == ':' && forall|i: int|
                from <= i < at ==> text[i] != ':',
            None => forall|i: int| from <= i < text.len() ==> text[i] != ':',
        },
    decreases text.len() - from,
{
    if from < text.len() && text[from] != ':' {
        lemma_colon_index(text, from + 1);
    }
}

/// A scoped name whose scope holds no colon splits into that scope and that name again.
pub proof fn lemma_scoped_splits(scope: Seq<char>, name: Seq<char>)
    requires
        !scope.contains(':'),
    ensures
        scope_of(scoped(scope, name)) == Some(scope),
        name_of(scoped(scope, name)) == name,
{
    let text = scoped(scope, name);
    lemma_colon_index(text, 0);
    assert(text[scope.len() as int] == ':');
    assert forall|i: int| 0 <= i < scope.len() implies text[i] != ':' by {
        assert(text[i] == scope[i]);
        assert(scope.contains(scope[i]));
    }
    assert(colon_index(text, 0) == Some(scope.len() as int));
    assert(text.subrange(0, scope.len() as int) =~= scope);
    assert(text.subrange(scope.len() as int + 1, text.len() as int) =~= name);
}

/// `String::from_utf8`: succeeds exactly on well-formed UTF-8, and then gives the text that
/// the bytes encode.
#[verifier::external_body]
fn string_from_utf8(bytes: Vec<u8>) -> (text: Option<String>)
    ensures
        text is Some <==> valid_utf8(bytes@),
        text matches Some(s) ==> s@ == decode_utf8(bytes@),
{
    String::from_utf8(bytes).ok()
}

/// The name of a type, with the scope it lives in where it has one (`marriage:spouse`).
///
/// A label is its scoped name: two labels are the same label when their scoped names are
/// the same text.
#[derive(Debug)]
pub struct Label {
    scoped_name: String,
}

impl View for Label {
    type V = Seq<char>;

    closed spec fn view(&self) -> Seq<char> {
        self.scoped_name@
    }
}

impl Clone for Label {
    fn clone(&self) -> (label: Self)
        ensures
            label@ == self@,
    {
        Label { scoped_name: self.scoped_name.clone() }
    }
}

impl PartialEq for Label {
    fn eq(&self, other: &Self) -> (equal: bool) {
        self.scoped_name == other.scoped_name
    }
}

impl Eq for Label {

}

impl PartialEqSpecImpl for Label {
    open spec fn obeys_eq_spec() -> bool {
        true
    }

    open spec fn eq_spec(&self, other: &Self) -> bool {
        self@ == other@
    }
}

impl Label {
    /// The label of a type that lives in no scope.
    pub fn build(name: &str) -> (label: Label)
        ensures
            label@ == name@,
    {
        Label { scoped_name: name.to_owned() }
    }

    /// The label of a type named `name` that lives in `scope`.
    pub fn build_scoped(name: &str, scope: &str) -> (label: Label)
        ensures
            label@ == scoped(scope@, name@),
    {
        let mut scoped_name = scope.to_owned();
        scoped_name.append(":");
        scoped_name.append(name);
        proof {
            reveal_strlit(":");
            assert(":"@ =~= seq![':']);
        }
        Label { scoped_name }
    }

    /// The whole label, scope included.
    pub fn scoped_name(&self) -> (text: &str)
        ensures
            text@ == self@,
    {
        self.scoped_name.as_str()
    }

    /// The whole label as an owned string.
    pub fn into_scoped_name(self) -> (text: String)
        ensures
            text@ == self@,
    {
        self.scoped_name
    }

    /// The position of the first colon of the label.
    fn find_colon(&self) -> (at: Option<usize>)
        ensures
            match at {
                Some(at) => colon_index(self@, 0) == Some(at as int),
                None => colon_index(self@, 0) is None,
            },
    {
        let text = self.scoped_name.as_str();
        let length = text.unicode_len();
        let mut i: usize = 0;
        while i < length
            invariant
                0 <= i <= length,
                length == text@.len(),
                text@ == self@,
                colon_index(self@, 0) == colon_index(self@, i as int),
            decreases length - i,
        {
            if text.get_char(i) == ':' {
                return Some(i);
            }
            i += 1;
        }
        None
    }

    /// The name of the type itself, without its scope.
    pub fn name(&self) -> (text: String)
        ensures
            text@ == name_of(self@),
    {
        let text = self.scoped_name.as_str();
        match self.find_colon() {
            Some(at) => {
                let length = text.unicode_len();
                proof {
                    lemma_colon_index(self@, 0);
                }
                text.substring_char(at + 1, length).to_owned()
            },
            None => text.to_owned(),
        }
    }

    /// The scope the type lives in, if it lives in one.
    pub fn scope(&self) -> (text: Option<String>)
        ensures
            match text {
                Some(text) => scope_of(self@) == Some(text@),
                None => scope_of(self@) is None,
            },
    {
        let text = self.scoped_name.as_str();
        match self.find_colon() {
            Some(at) => {
                proof {
                    lemma_colon_index(self@, 0);
                }
                Some(text.substring_char(0, at).to_owned())
            },
            None => None,
        }
    }

    /// The bytes that are stored for the label.
    pub fn bytes(&self) -> (bytes: Vec<u8>)
        ensures
            bytes@ == encode_utf8(self@),
    {
        self.scoped_name.as_str().as_bytes_vec()
    }

    /// The label that stored bytes spell, if they spell one.
    pub fn from_bytes(bytes: Vec<u8>) -> (label: Option<Label>)
        ensures
            label is Some <==> valid_utf8(bytes@),
            label matches Some(label) ==> label@ == decode_utf8(bytes@) && encode_utf8(label@)
                == bytes@,
    {
        proof {
            if valid_utf8(bytes@) {
                decode_utf8_encode_utf8(bytes@);
            }
        }
        match string_from_utf8(bytes) {
            Some(scoped_name) => Some(Label { scoped_name }),
            None => None,
        }
    }

    /// The key of the index entry that leads from this label to its type.
    pub fn index_key(&self) -> (key: Vec<u8>)
        ensures
            key@ == label_index_key(self@),
    {
        let mut key: Vec<u8> = Vec::new();
        key.push(LABEL_INDEX_TAG);
        let bytes = self.scoped_name.as_str().as_bytes();
        key.extend_from_slice(bytes);
        assert(key@ =~= label_index_key(self@));
        key
    }
}

} // verus!
