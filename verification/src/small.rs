//! The small vectors that decoded values are kept in.
//!
//! `smallvec::SmallVec` keeps a few items inline and moves to the heap beyond
//! that. Two shapes of it occur: 128 bytes inline for raw data and 16
//! arguments inline for an instruction. `SmallVec` takes its room from a type
//! parameter bound by a trait of its crate, which the verifier cannot be told
//! of; so each shape is kept in a type of its own, opaque to the verifier,
//! whose view is the sequence of its items. What is taken on trust of
//! `SmallVec` is that `from_vec` and `as_slice` keep the items and their
//! order.

use crate::parser::{args_view, ArgModel, ArgValue};
use smallvec::SmallVec;
use vstd::prelude::*;
use vstd::slice::slice_to_vec;

verus! {

/// Raw bytes, in a `SmallVec` with room for 128 of them inline.
#[verifier::external_body]
#[derive(Debug)]
pub struct RawData {
    items: SmallVec<[u8; 128]>,
}

/// The arguments of an instruction, in a `SmallVec` with room for 16 of them
/// inline.
#[verifier::external_body]
#[derive(Debug)]
pub struct ArgList {
    items: SmallVec<[ArgValue; 16]>,
}

/// The bytes that `data` holds, in order.
pub uninterp spec fn raw_data_items(data: RawData) -> Seq<u8>;

/// The arguments that `args` holds, in order.
pub uninterp spec fn arg_list_items(args: ArgList) -> Seq<ArgValue>;

impl View for RawData {
    type V = Seq<u8>;

    open spec fn view(&self) -> Seq<u8> {
        raw_data_items(*self)
    }
}

impl RawData {
    /// `SmallVec::from_vec`: the small vector holds the items of the vector,
    /// in order.
    #[verifier::external_body]
    fn wrap(bytes: Vec<u8>) -> (data: RawData)
        ensures
            raw_data_items(data) == bytes@,
    {
        RawData { items: SmallVec::from_vec(bytes) }
    }

    /// `SmallVec::as_slice`: the slice shows the items of the small vector,
    /// in order.
    #[verifier::external_body]
    fn items(&self) -> (items: &[u8])
        ensures
            items@ == raw_data_items(*self),
    {
        self.items.as_slice()
    }

    /// The bytes of `bytes`, in order.
    pub fn from_vec(bytes: Vec<u8>) -> (data: RawData)
        ensures
            data@ == bytes@,
    {
        RawData::wrap(bytes)
    }

    /// The bytes, in order.
    pub fn as_slice(&self) -> (items: &[u8])
        ensures
            items@ == self@,
    {
        self.items()
    }
}

impl Clone for RawData {
    fn clone(&self) -> (copy: RawData)
        ensures
            copy@ == self@,
    {
        RawData::wrap(slice_to_vec(self.items()))
    }
}

impl View for ArgList {
    type V = Seq<ArgModel>;

    open spec fn view(&self) -> Seq<ArgModel> {
        args_view(arg_list_items(*self))
    }
}

impl ArgList {
    /// `SmallVec::from_vec`: the small vector holds the items of the vector,
    /// in order.
    #[verifier::external_body]
    fn wrap(args: Vec<ArgValue>) -> (list: ArgList)
        ensures
            arg_list_items(list) == args@,
    {
        ArgList { items: SmallVec::from_vec(args) }
    }

    /// `SmallVec::as_slice`: the slice shows the items of the small vector,
    /// in order.
    #[verifier::external_body]
    fn items(&self) -> (items: &[ArgValue])
        ensures
            items@ == arg_list_items(*self),
    {
        self.items.as_slice()
    }

    /// The arguments of `args`, in order.
    pub fn from_vec(args: Vec<ArgValue>) -> (list: ArgList)
        ensures
            arg_list_items(list) == args@,
            list@ == args_view(args@),
    {
        ArgList::wrap(args)
    }

    /// The arguments, in order.
    pub fn as_slice(&self) -> (items: &[ArgValue])
        ensures
            items@ == arg_list_items(*self),
            args_view(items@) == self@,
    {
        self.items()
    }
}

impl Clone for ArgList {
    fn clone(&self) -> (copy: ArgList)
        ensures
            copy@ == self@,
    {
        let items = self.items();
        let mut args: Vec<ArgValue> = Vec::new();
        let mut i: usize = 0;
        while i < items.len()
            invariant
                i <= items@.len(),
                args@.len() == i,
                forall|k: int| 0 <= k < i ==> (#[trigger] args@[k])@ == items@[k]@,
            decreases items@.len() - i,
        {
            args.push(items[i].clone());
            i += 1;
        }
        ArgList::wrap(args)
    }
}

} // verus!
