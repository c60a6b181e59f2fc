//! The name of a profile, and the bytes that carry it.

use crate::text::{
    from_utf8, lemma_encode_append, lemma_encode_zero, lemma_split_append, split, split_at,
    utf8_error, views, InvalidUtf8,
};
use vstd::prelude::*;
use vstd::string::*;
use vstd::utf8::{
    decode_utf8, encode_utf8, encode_utf8_decode_utf8, encode_utf8_valid_utf8, valid_utf8,
};

verus! {

/// A given name and, where there is one, a family name.
#[derive(Clone, Debug, PartialEq, Eq)]
pub struct ProfileName<S> {
    pub given_name: S,
    pub family_name: Option<S>,
}

/// What a name says.
#[verifier::ext_equal]
pub struct NameView {
    pub given: Seq<char>,
    pub family: Option<Seq<char>>,
}

impl NameView {
    /// The name as one text: the parts with a zero character between them.
    pub open spec fn text(self) -> Seq<char> {
        match self.family {
            Some(family) => self.given.push('\0') + family,
            None => self.given,
        }
    }

    /// The bytes that carry the name.
    pub open spec fn serialized(self) -> Seq<u8> {
        encode_utf8(self.text())
    }

    /// The name that a text spells. The empty text spells none, and what follows
    /// a second zero character does not count.
    pub open spec fn spelled(text: Seq<char>) -> Option<NameView> {
        let parts = split_at(text, '\0');
        if text.len() == 0 {
            None
        } else {
            Some(
                NameView {
                    given: parts[0],
                    family: if parts.len() > 1 {
                        Some(parts[1])
                    } else {
                        None
                    },
                },
            )
        }
    }

    /// The name that bytes carry.
    pub open spec fn deserialized(bytes: Seq<u8>) -> Result<Option<NameView>, InvalidUtf8> {
        if valid_utf8(bytes) {
            Ok(Self::spelled(decode_utf8(bytes)))
        } else {
            Err(utf8_error(bytes))
        }
    }

    /// Whether the name can be read back from its bytes: it says something, and
    /// holds no zero character that would be taken for the separator.
    pub open spec fn is_plain(self) -> bool {
        &&& self.text().len() > 0
        &&& !self.given.contains('\0')
        &&& self.family matches Some(family) ==> !family.contains('\0')
    }
}

impl<'a> View for ProfileName<&'a str> {
    type V = NameView;

    open spec fn view(&self) -> NameView {
        NameView {
            given: self.given_name@,
            family: match self.family_name {
                Some(family) => Some(family@),
                None => None,
            },
        }
    }
}

impl View for ProfileName<String> {
    type V = NameView;

    open spec fn view(&self) -> NameView {
        NameView {
            given: self.given_name@,
            family: match self.family_name {
                Some(family) => Some(family@),
                None => None,
            },
        }
    }
}

/// What an optional name says.
pub open spec fn opt_name(name: Option<ProfileName<String>>) -> Option<NameView> {
    match name {
        Some(name) => Some(name@),
        None => None,
    }
}

impl<'a> ProfileName<&'a str> {
    /// The bytes that carry the name.
    pub fn serialize(&self) -> (bytes: Vec<u8>)
        ensures
            bytes@ == self@.serialized(),
    {
        let mut bytes = self.given_name.as_bytes_vec();
        if let Some(family) = self.family_name {
            bytes.push(0);
            bytes.extend_from_slice(family.as_bytes());
            proof {
                lemma_encode_append(self@.given.push('\0'), family@);
                lemma_encode_append(self@.given, seq!['\0']);
                lemma_encode_zero();
                assert(self@.given.push('\0') =~= self@.given + seq!['\0']);
            }
        }
        assert(bytes@ =~= self@.serialized());
        bytes
    }
}

impl ProfileName<String> {
    /// The same name, borrowed.
    pub fn as_ref(&self) -> (name: ProfileName<&str>)
        ensures
            name@ == self@,
    {
        ProfileName {
            given_name: self.given_name.as_str(),
            family_name: match &self.family_name {
                Some(family) => Some(family.as_str()),
                None => None,
            },
        }
    }

    /// The bytes that carry the name.
    pub fn serialize(&self) -> (bytes: Vec<u8>)
        ensures
            bytes@ == self@.serialized(),
    {
        self.as_ref().serialize()
    }

    /// Reads a name from the bytes that carry it. Empty bytes carry none.
    pub fn deserialize(bytes: &[u8]) -> (result: Result<Option<Self>, InvalidUtf8>)
        ensures
            match result {
                Ok(name) => NameView::deserialized(bytes@) == Ok::<
                    Option<NameView>,
                    InvalidUtf8,
                >(opt_name(name)),
                Err(error) => NameView::deserialized(bytes@) == Err::<
                    Option<NameView>,
                    InvalidUtf8,
                >(error),
            },
    {
        match from_utf8(bytes) {
            Ok(text) => {
                if text.is_empty() {
                    return Ok(None);
                }
                let parts = split(text, '\0');
                proof {
                    assert(views(parts@)[0] == parts@[0]@);
                    assert(parts@.len() > 1 ==> views(parts@)[1] == parts@[1]@);
                }
                Ok(
                    Some(
                        ProfileName {
                            given_name: parts[0].to_string(),
                            family_name: if parts.len() > 1 {
                                Some(parts[1].to_string())
                            } else {
                                None
                            },
                        },
                    ),
                )
            },
            Err(error) => Err(error),
        }
    }
}

/// The bytes of a text carry the name that the text spells.
pub proof fn text_is_spelled(text: Seq<char>)
    ensures
        NameView::deserialized(encode_utf8(text)) == Ok::<Option<NameView>, InvalidUtf8>(
            NameView::spelled(text),
        ),
{
    encode_utf8_valid_utf8(text);
    encode_utf8_decode_utf8(text);
}

/// A name is read back from its bytes as what its text spells. That is the name
/// itself, if it says something and its parts hold no zero character.
pub proof fn name_reads_back(name: NameView)
    ensures
        NameView::deserialized(name.serialized()) == Ok::<Option<NameView>, InvalidUtf8>(
            NameView::spelled(name.text()),
        ),
        name.is_plain() ==> NameView::spelled(name.text()) == Some(name),
{
    text_is_spelled(name.text());
    if name.is_plain() {
        lemma_split_append(Seq::empty(), '\0', name.given);
        if let Some(family) = name.family {
            lemma_split_append(name.given, '\0', family);
        }
    }
}

} // verus!
