//! What a run is asked to do, and where.

use vstd::prelude::*;

verus! {

/// A setting: unset, left at its default, or given by the user.
pub enum Value<T> {
    Unset,
    Default(T),
    User(T),
}

/// Which of the results of a command that walks the save is asked for.
pub enum Index {
    First,
    Value(usize),
    All,
}

pub enum Scope {
    All,
    Region,
}

pub enum Method {
    Name(String),
}

pub enum Command {
    List(Scope),
    Search(Method),
}

pub struct Configuration {
    pub command: Value<Command>,
    pub save_root: Value<String>,
    pub index: Value<Index>,
}

impl<T> Value<T> {
    /// What the setting holds, if it is set.
    pub open spec fn chosen(&self) -> Option<T> {
        match *self {
            Value::Unset => None,
            Value::Default(val) => Some(val),
            Value::User(val) => Some(val),
        }
    }

    /// What the setting holds, whether by default or from the user; `None`
    /// if it is unset.
    pub fn value(&self) -> (r: Option<&T>)
        ensures
            match r {
                Some(val) => self.chosen() == Some(*val),
                None => self.chosen().is_none(),
            },
    {
        match self {
            Value::Unset => None,
            Value::User(val) => Some(val),
            Value::Default(val) => Some(val),
        }
    }
}

} // verus!
