use crate::buffer::message::clone_path;
use vstd::prelude::*;

verus! {

/// A parameter that a node exposes, addressed relative to the node.
#[derive(Debug)]
pub struct Parameter<T> {
    pub addr: Vec<String>,
    pub range: ParaRange<T>,
}

#[derive(Debug)]
pub enum ParaRange<T> {
    Float(FloatRange<T>),
    Enum(EnumRange),
}

/// A continuous parameter with its bounds and initial value.
#[derive(Debug)]
pub struct FloatRange<T> {
    pub name: String,
    pub min: T,
    pub max: T,
    pub default: T,
}

/// A parameter that selects one of `len` choices.
#[derive(Debug)]
pub struct EnumRange {
    pub name: String,
    pub len: usize,
    pub default: usize,
}

impl Clone for EnumRange {
    fn clone(&self) -> (r: Self)
        ensures
            r == *self,
    {
        EnumRange { name: self.name.clone(), len: self.len, default: self.default }
    }
}

impl<T: Copy> Clone for FloatRange<T> {
    fn clone(&self) -> (r: Self)
        ensures
            r == *self,
    {
        FloatRange { name: self.name.clone(), min: self.min, max: self.max, default: self.default }
    }
}

impl<T: Copy> Clone for ParaRange<T> {
    fn clone(&self) -> (r: Self)
        ensures
            r == *self,
    {
        match self {
            ParaRange::Float(f) => ParaRange::Float(f.clone()),
            ParaRange::Enum(e) => ParaRange::Enum(e.clone()),
        }
    }
}

impl<T: Copy> Clone for Parameter<T> {
    fn clone(&self) -> (r: Self)
        ensures
            r.addr@ == self.addr@,
            r.range == self.range,
    {
        Parameter { addr: clone_path(&self.addr), range: self.range.clone() }
    }
}

} // verus!
