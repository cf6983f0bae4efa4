//! Kernel object handles — typed wrappers around raw IDs.
use vstd::prelude::*;
use core::marker::PhantomData;

verus! {

/// Marker trait for kernel object handle kinds.
pub trait Handle {}

/// Typed handle: `T` is the kind of object, `ID` the underlying id type.
pub struct GenericHandle<T: Handle, ID: Copy> {
    id: ID,
    _marker: PhantomData<T>,
}

impl<T: Handle, ID: Copy> GenericHandle<T, ID> {
    /// The id carried by the handle.
    pub closed spec fn view_id(&self) -> ID {
        self.id
    }

    pub fn new(id: ID) -> (h: Self)
        ensures
            h.view_id() == id,
    {
        GenericHandle { id, _marker: PhantomData }
    }

    pub fn id(&self) -> (r: ID)
        ensures
            r == self.view_id(),
    {
        self.id
    }
}

pub struct TaskMarker;

pub struct ProcessMarker;

pub struct FileHandleTag;

pub struct DeviceHandleTag;

impl Handle for TaskMarker {}

impl Handle for ProcessMarker {}

impl Handle for FileHandleTag {}

impl Handle for DeviceHandleTag {}

pub type TaskHandle = GenericHandle<TaskMarker, usize>;

pub type ProcessHandle = GenericHandle<ProcessMarker, usize>;

pub type FileHandle = GenericHandle<FileHandleTag, usize>;

pub type DeviceHandle = GenericHandle<DeviceHandleTag, usize>;

} // verus!
