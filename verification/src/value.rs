use crate::decimal::{format_integer, int_text, parse_integer, parse_spec};
use crate::float::Float;
use crate::list::List;
use crate::path::Path;
use crate::try_as_ref::TryAsRef;
use vstd::prelude::*;

verus! {

/// Where a variable reference looks its variable up.
#[derive(Clone, Copy, Debug, PartialEq, Eq, Structural)]
pub enum VariableContext {
    Global,
    Local,
}

/// A reference to a variable: its name and the scope in which the name is looked up.
#[derive(Clone, Debug, PartialEq)]
pub struct VariablePointer {
    pub name: String,
    pub context: VariableContext,
}

/// A runtime value of the scripting language.
#[derive(Clone, Debug, PartialEq)]
pub enum Value {
    Int(i64),
    Float(Float),
    List(List),
    String(String),
    DivertTarget(Path),
    VariablePointer(VariablePointer),
}

impl Value {
    /// Whether a value counts as true: a number that is not zero, a text or a list that is
    /// not empty. Divert targets and variable references count as neither.
    pub open spec fn truthy(self) -> bool {
        match self {
            Value::Int(v) => v != 0,
            Value::Float(f) => !f.is_zero_spec(),
            Value::String(s) => s@.len() > 0,
            Value::List(l) => l@.len() > 0,
            Value::DivertTarget(_) => false,
            Value::VariablePointer(_) => false,
        }
    }

    /// Whether the value counts as true. Divert targets and variable references have no
    /// truth value and must not be asked for one.
    pub fn is_truthy(&self) -> (truth: bool)
        requires
            !(self is DivertTarget),
            !(self is VariablePointer),
        ensures
            truth == self.truthy(),
    {
        match self {
            Value::Int(v) => *v != 0,
            Value::Float(f) => !f.is_zero(),
            Value::String(s) => !s.as_str().is_empty(),
            Value::List(l) => !l.is_empty(),
            Value::DivertTarget(_) => false,
            Value::VariablePointer(_) => false,
        }
    }
}

impl From<bool> for Value {
    /// A truth value becomes the integer one or zero.
    fn from(value: bool) -> (made: Value) {
        Value::Int(if value { 1 } else { 0 })
    }
}

impl vstd::std_specs::convert::FromSpecImpl<bool> for Value {
    open spec fn obeys_from_spec() -> bool {
        true
    }

    open spec fn from_spec(value: bool) -> Value {
        Value::Int(if value { 1 } else { 0 })
    }
}

impl From<i64> for Value {
    fn from(value: i64) -> (made: Value) {
        Value::Int(value)
    }
}

impl vstd::std_specs::convert::FromSpecImpl<i64> for Value {
    open spec fn obeys_from_spec() -> bool {
        true
    }

    open spec fn from_spec(value: i64) -> Value {
        Value::Int(value)
    }
}

impl From<Float> for Value {
    fn from(value: Float) -> (made: Value) {
        Value::Float(value)
    }
}

impl vstd::std_specs::convert::FromSpecImpl<Float> for Value {
    open spec fn obeys_from_spec() -> bool {
        true
    }

    open spec fn from_spec(value: Float) -> Value {
        Value::Float(value)
    }
}

impl From<String> for Value {
    fn from(value: String) -> (made: Value) {
        Value::String(value)
    }
}

impl vstd::std_specs::convert::FromSpecImpl<String> for Value {
    open spec fn obeys_from_spec() -> bool {
        true
    }

    open spec fn from_spec(value: String) -> Value {
        Value::String(value)
    }
}

impl From<List> for Value {
    fn from(value: List) -> (made: Value) {
        Value::List(value)
    }
}

impl vstd::std_specs::convert::FromSpecImpl<List> for Value {
    open spec fn obeys_from_spec() -> bool {
        true
    }

    open spec fn from_spec(value: List) -> Value {
        Value::List(value)
    }
}

impl From<Path> for Value {
    /// A path becomes a divert target.
    fn from(value: Path) -> (made: Value) {
        Value::DivertTarget(value)
    }
}

impl vstd::std_specs::convert::FromSpecImpl<Path> for Value {
    open spec fn obeys_from_spec() -> bool {
        true
    }

    open spec fn from_spec(value: Path) -> Value {
        Value::DivertTarget(value)
    }
}

impl From<VariablePointer> for Value {
    fn from(value: VariablePointer) -> (made: Value) {
        Value::VariablePointer(value)
    }
}

impl vstd::std_specs::convert::FromSpecImpl<VariablePointer> for Value {
    open spec fn obeys_from_spec() -> bool {
        true
    }

    open spec fn from_spec(value: VariablePointer) -> Value {
        Value::VariablePointer(value)
    }
}

impl TryAsRef<i64> for Value {
    open spec fn held(&self) -> Option<i64> {
        match self {
            Value::Int(inner) => Some(*inner),
            _ => None,
        }
    }

    fn try_as_ref(&self) -> (found: Option<&i64>) {
        match self {
            Value::Int(inner) => Some(inner),
            _ => None,
        }
    }
}

impl TryAsRef<Float> for Value {
    open spec fn held(&self) -> Option<Float> {
        match self {
            Value::Float(inner) => Some(*inner),
            _ => None,
        }
    }

    fn try_as_ref(&self) -> (found: Option<&Float>) {
        match self {
            Value::Float(inner) => Some(inner),
            _ => None,
        }
    }
}

impl TryAsRef<String> for Value {
    open spec fn held(&self) -> Option<String> {
        match self {
            Value::String(inner) => Some(*inner),
            _ => None,
        }
    }

    fn try_as_ref(&self) -> (found: Option<&String>) {
        match self {
            Value::String(inner) => Some(inner),
            _ => None,
        }
    }
}

impl TryAsRef<List> for Value {
    open spec fn held(&self) -> Option<List> {
        match self {
            Value::List(inner) => Some(*inner),
            _ => None,
        }
    }

    fn try_as_ref(&self) -> (found: Option<&List>) {
        match self {
            Value::List(inner) => Some(inner),
            _ => None,
        }
    }
}

impl TryAsRef<Path> for Value {
    open spec fn held(&self) -> Option<Path> {
        match self {
            Value::DivertTarget(inner) => Some(*inner),
            _ => None,
        }
    }

    fn try_as_ref(&self) -> (found: Option<&Path>) {
        match self {
            Value::DivertTarget(inner) => Some(inner),
            _ => None,
        }
    }
}

impl TryAsRef<VariablePointer> for Value {
    open spec fn held(&self) -> Option<VariablePointer> {
        match self {
            Value::VariablePointer(inner) => Some(*inner),
            _ => None,
        }
    }

    fn try_as_ref(&self) -> (found: Option<&VariablePointer>) {
        match self {
            Value::VariablePointer(inner) => Some(inner),
            _ => None,
        }
    }
}

/// What is left to do to read a value as a float.
#[derive(Clone, Debug, PartialEq)]
pub enum FloatSource {
    /// Nothing: this is the float.
    Float(Float),
    /// The value is this text. It converts to the float that the text spells, and fails to
    /// convert when the text spells none.
    Text(String),
}

/// What is left to do to read a value as text.
#[derive(Clone, Debug, PartialEq)]
pub enum TextSource {
    /// Nothing: this is the text.
    Text(String),
    /// The value is this float. It converts to the text that spells the float.
    Float(Float),
}

impl TryInto<i64> for Value {
    type Error = ();

    /// An integer converts to itself, a float to its whole part, a text to the integer it
    /// spells in decimal. Nothing else converts.
    fn try_into(self) -> (converted: Result<i64, ()>) {
        match self {
            Value::Int(v) => Ok(v),
            Value::Float(f) => Ok(f.to_integer()),
            Value::String(s) => match parse_integer(s.as_str()) {
                Some(v) => Ok(v),
                None => Err(()),
            },
            _ => Err(()),
        }
    }
}

impl vstd::std_specs::convert::TryIntoSpecImpl<i64> for Value {
    open spec fn obeys_try_into_spec() -> bool {
        true
    }

    open spec fn try_into_spec(self) -> Result<i64, ()> {
        match self {
            Value::Int(v) => Ok(v),
            Value::Float(f) => Ok(f.to_integer_spec()),
            Value::String(s) => match parse_spec(s@) {
                Some(v) => Ok(v),
                None => Err(()),
            },
            _ => Err(()),
        }
    }
}

impl vstd::std_specs::convert::TryIntoSpecImpl<FloatSource> for Value {
    open spec fn obeys_try_into_spec() -> bool {
        true
    }

    open spec fn try_into_spec(self) -> Result<FloatSource, ()> {
        match self {
            Value::Int(v) => Ok(FloatSource::Float(Float::of_integer(v as int))),
            Value::Float(f) => Ok(FloatSource::Float(f)),
            Value::String(s) => Ok(FloatSource::Text(s)),
            _ => Err(()),
        }
    }
}

impl TryInto<FloatSource> for Value {
    type Error = ();

    /// An integer converts to the nearest float and a float to itself. A text is handed
    /// back to be read as a float. Nothing else converts.
    fn try_into(self) -> (converted: Result<FloatSource, ()>) {
        match self {
            Value::Int(v) => Ok(FloatSource::Float(Float::from_integer(v))),
            Value::Float(f) => Ok(FloatSource::Float(f)),
            Value::String(s) => Ok(FloatSource::Text(s)),
            _ => Err(()),
        }
    }
}

impl TryInto<TextSource> for Value {
    type Error = ();

    /// An integer converts to its decimal text and a text to itself. A float is handed
    /// back to be written out. Nothing else converts.
    fn try_into(self) -> (converted: Result<TextSource, ()>)
        ensures
            match self {
                Value::Int(v) => converted matches Ok(TextSource::Text(text)) && text@ == int_text(
                    v as int,
                ),
                Value::Float(f) => converted == Ok::<TextSource, ()>(TextSource::Float(f)),
                Value::String(s) => converted == Ok::<TextSource, ()>(TextSource::Text(s)),
                _ => converted is Err,
            },
    {
        match self {
            Value::Int(v) => Ok(TextSource::Text(format_integer(v))),
            Value::Float(f) => Ok(TextSource::Float(f)),
            Value::String(s) => Ok(TextSource::Text(s)),
            _ => Err(()),
        }
    }
}

/// The text of an integer is made by the conversion, so what it returns is stated
/// character by character in the contract of `try_into` and not as one value here.
impl vstd::std_specs::convert::TryIntoSpecImpl<TextSource> for Value {
    open spec fn obeys_try_into_spec() -> bool {
        false
    }

    open spec fn try_into_spec(self) -> Result<TextSource, ()> {
        Err(())
    }
}

impl TryInto<Path> for Value {
    type Error = ();

    /// Only a divert target converts to a path: to the path it holds.
    fn try_into(self) -> (converted: Result<Path, ()>) {
        match self {
            Value::DivertTarget(path) => Ok(path),
            _ => Err(()),
        }
    }
}

impl vstd::std_specs::convert::TryIntoSpecImpl<Path> for Value {
    open spec fn obeys_try_into_spec() -> bool {
        true
    }

    open spec fn try_into_spec(self) -> Result<Path, ()> {
        match self {
            Value::DivertTarget(path) => Ok(path),
            _ => Err(()),
        }
    }
}

impl TryInto<VariablePointer> for Value {
    type Error = ();

    /// Only a variable reference converts to a variable reference: to itself.
    fn try_into(self) -> (converted: Result<VariablePointer, ()>) {
        match self {
            Value::VariablePointer(pointer) => Ok(pointer),
            _ => Err(()),
        }
    }
}

impl vstd::std_specs::convert::TryIntoSpecImpl<VariablePointer> for Value {
    open spec fn obeys_try_into_spec() -> bool {
        true
    }

    open spec fn try_into_spec(self) -> Result<VariablePointer, ()> {
        match self {
            Value::VariablePointer(pointer) => Ok(pointer),
            _ => Err(()),
        }
    }
}

} // verus!
