//! A message as a list of tagged values.
use vstd::prelude::*;
use vstd::utf8::*;

use crate::errors::{LoadError, LoadFault, ParsingError, ParsingFault};
use crate::fix::parser::FixField;
use crate::fix::tag;
use crate::std_text::{utf8_error_text, utf8_text};
use crate::text::{i32_value, parse_i32};

verus! {

/// The value of a field: one text, or the bid and the offer side of a quote.
#[derive(Debug)]
pub enum ValType {
    Single(String),
    Pair((String, String)),
}

/// The model of a `ValType`.
pub enum FieldText {
    Single(Seq<char>),
    Pair(Seq<char>, Seq<char>),
}

impl View for ValType {
    type V = FieldText;

    open spec fn view(&self) -> FieldText {
        match *self {
            ValType::Single(text) => FieldText::Single(text@),
            ValType::Pair(texts) => FieldText::Pair(texts.0@, texts.1@),
        }
    }
}

impl Clone for ValType {
    fn clone(&self) -> (r: Self)
        ensures
            r@ == self@,
    {
        match self {
            ValType::Single(text) => ValType::Single(text.clone()),
            ValType::Pair(texts) => ValType::Pair((texts.0.clone(), texts.1.clone())),
        }
    }
}

/// A message: its fields in the order in which they stand on the wire.
#[derive(Debug)]
pub struct RawMessage {
    pub fields: Vec<(u32, ValType)>,
}

impl View for RawMessage {
    type V = Seq<(u32, FieldText)>;

    open spec fn view(&self) -> Seq<(u32, FieldText)> {
        self.fields@.map_values(|f: (u32, ValType)| (f.0, f.1@))
    }
}

impl Clone for RawMessage {
    fn clone(&self) -> (r: Self)
        ensures
            r@ == self@,
    {
        let mut fields: Vec<(u32, ValType)> = Vec::new();
        let mut i: usize = 0;
        while i < self.fields.len()
            invariant
                i <= self.fields@.len(),
                fields@.len() == i,
                forall|j: int|
                    0 <= j < i ==> (#[trigger] fields@[j]).0 == self.fields@[j].0 && fields@[j].1@
                        == self.fields@[j].1@,
            decreases self.fields@.len() - i,
        {
            let value: ValType = self.fields[i].1.clone();
            fields.push((self.fields[i].0, value));
            i = i + 1;
        }
        let r = RawMessage { fields };
        assert(r@ =~= self@);
        r
    }
}

/// The value of the first field with this tag, from field `i` on.
pub open spec fn value_from(fields: Seq<(u32, FieldText)>, tag: u32, i: int) -> Option<FieldText>
    decreases fields.len() - i,
{
    if i >= fields.len() {
        None
    } else if fields[i].0 == tag {
        Some(fields[i].1)
    } else {
        value_from(fields, tag, i + 1)
    }
}

/// The value of the first field with this tag.
pub open spec fn value_of(fields: Seq<(u32, FieldText)>, tag: u32) -> Option<FieldText> {
    value_from(fields, tag, 0)
}

/// The text of the first field with this tag, where it is a single text.
pub open spec fn single_of(fields: Seq<(u32, FieldText)>, tag: u32) -> Option<Seq<char>> {
    match value_of(fields, tag) {
        Some(FieldText::Single(text)) => Some(text),
        _ => None,
    }
}

/// The texts of the first field with this tag, where it is a pair.
pub open spec fn pair_of(fields: Seq<(u32, FieldText)>, tag: u32) -> Option<(Seq<char>, Seq<char>)> {
    match value_of(fields, tag) {
        Some(FieldText::Pair(first, second)) => Some((first, second)),
        _ => None,
    }
}

/// The number that the first field with this tag denotes.
pub open spec fn int_of(fields: Seq<(u32, FieldText)>, tag: u32) -> Option<i32> {
    match single_of(fields, tag) {
        Some(text) => i32_value(text),
        None => None,
    }
}

/// The numbers that the first field with this tag denotes.
pub open spec fn pair_int_of(fields: Seq<(u32, FieldText)>, tag: u32) -> (Option<i32>, Option<i32>) {
    match pair_of(fields, tag) {
        Some((first, second)) => (i32_value(first), i32_value(second)),
        None => (None, None),
    }
}

/// The field that a piece of the wire becomes, where its value is text.
pub open spec fn single_field(tag: u32, value: Seq<u8>) -> Result<(u32, FieldText), ParsingFault> {
    if valid_utf8(value) {
        Ok((tag, FieldText::Single(decode_utf8(value))))
    } else {
        Err(ParsingFault::FailToLoad(LoadFault::NotUtf8(utf8_error_text(value))))
    }
}

/// The bytes of a field's value as text.
pub(crate) fn value_text(value: &[u8]) -> (r: Result<String, ParsingError>)
    ensures
        match r {
            Ok(text) => valid_utf8(value@) && text@ == decode_utf8(value@),
            Err(e) => !valid_utf8(value@) && e@ == ParsingFault::FailToLoad(
                LoadFault::NotUtf8(utf8_error_text(value@)),
            ),
        },
{
    match utf8_text(value) {
        Ok(text) => Ok(text.to_owned()),
        Err(message) => Err(ParsingError::FailToLoad(LoadError::NotUtf8(message))),
    }
}

impl Default for RawMessage {
    fn default() -> (msg: Self)
        ensures
            msg@ == Seq::<(u32, FieldText)>::empty(),
    {
        let msg = RawMessage { fields: Vec::new() };
        assert(msg@ =~= Seq::<(u32, FieldText)>::empty());
        msg
    }
}

impl RawMessage {
    /// A message without fields, with room for `cap` of them. A field takes up to
    /// 64 bytes, and there is no room for more than `isize::MAX` bytes.
    pub fn new(cap: usize) -> (msg: Self)
        requires
            cap * 64 <= isize::MAX,
        ensures
            msg@ == Seq::<(u32, FieldText)>::empty(),
    {
        let msg = Self { fields: Vec::with_capacity(cap) };
        assert(msg@ =~= Seq::<(u32, FieldText)>::empty());
        msg
    }

    /// Appends a field.
    pub fn push(&mut self, tag: u32, value: ValType)
        ensures
            final(self)@ == old(self)@.push((tag, value@)),
    {
        self.fields.push((tag, value));
        assert(self@ =~= old(self)@.push((tag, value@)));
    }

    /// The value of the first field with this tag.
    pub fn get_val(&self, tag: u32) -> (r: Option<&ValType>)
        ensures
            match r {
                Some(val) => value_of(self@, tag) == Some(val@),
                None => value_of(self@, tag) is None,
            },
    {
        let mut i: usize = 0;
        while i < self.fields.len()
            invariant
                i <= self.fields@.len(),
                value_of(self@, tag) == value_from(self@, tag, i as int),
            decreases self.fields@.len() - i,
        {
            assert(self@[i as int] == (self.fields@[i as int].0, self.fields@[i as int].1@));
            if self.fields[i].0 == tag {
                return Some(&self.fields[i].1);
            }
            i = i + 1;
        }
        None
    }

    /// The text of the first field with this tag, where it is a single text.
    pub fn single_text(&self, tag: u32) -> (r: Option<&str>)
        ensures
            match r {
                Some(text) => single_of(self@, tag) == Some(text@),
                None => single_of(self@, tag) is None,
            },
    {
        match self.get_val(tag) {
            Some(ValType::Single(text)) => Some(text.as_str()),
            _ => None,
        }
    }

    /// The texts of the first field with this tag, where it is a pair.
    pub fn pair_text(&self, tag: u32) -> (r: Option<(&str, &str)>)
        ensures
            match r {
                Some((first, second)) => pair_of(self@, tag) == Some((first@, second@)),
                None => pair_of(self@, tag) is None,
            },
    {
        match self.get_val(tag) {
            Some(ValType::Pair(texts)) => Some((texts.0.as_str(), texts.1.as_str())),
            _ => None,
        }
    }

    /// The first field with this tag, read as a number.
    pub fn get_int(&self, tag: u32) -> (r: Option<i32>)
        ensures
            r == int_of(self@, tag),
    {
        match self.single_text(tag) {
            Some(text) => parse_i32(text),
            None => None,
        }
    }

    /// The first character of the first field with this tag.
    pub fn get_char(&self, tag: u32) -> (r: Option<char>)
        ensures
            r == match single_of(self@, tag) {
                Some(text) => if text.len() > 0 {
                    Some(text[0])
                } else {
                    None
                },
                None => None,
            },
    {
        match self.single_text(tag) {
            Some(text) => text.chars().next(),
            None => None,
        }
    }

    /// The message type.
    pub fn get_tp(&self) -> (r: Option<&str>)
        ensures
            match r {
                Some(text) => single_of(self@, tag::MSG_TYPE) == Some(text@),
                None => single_of(self@, tag::MSG_TYPE) is None,
            },
    {
        self.single_text(tag::MSG_TYPE)
    }

    /// The first field with this tag, read as a pair of numbers.
    pub fn get_pair_int(&self, tag: u32) -> (r: (Option<i32>, Option<i32>))
        ensures
            r == pair_int_of(self@, tag),
    {
        match self.pair_text(tag) {
            Some((first, second)) => (parse_i32(first), parse_i32(second)),
            None => (None, None),
        }
    }

    /// Appends a field read from the wire, or leaves the message as it is where
    /// the value is not text.
    pub fn append_single(&mut self, field: &FixField) -> (r: Result<(), ParsingError>)
        ensures
            match r {
                Ok(()) => single_field(field.tag, field.value@) is Ok && final(self)@ == old(self)@.push(
                    single_field(field.tag, field.value@)->Ok_0,
                ),
                Err(e) => single_field(field.tag, field.value@) == Err::<(u32, FieldText), ParsingFault>(e@)
                    && final(self)@ == old(self)@,
            },
    {
        match value_text(field.value) {
            Ok(text) => {
                self.push(field.tag, ValType::Single(text));
                Ok(())
            },
            Err(e) => Err(e),
        }
    }
}

} // verus!
