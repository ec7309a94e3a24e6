//! Keys that tie the fields of a block's input or output to registry channels,
//! and the readers and writers they make.
use vstd::prelude::*;

use crate::errors::RegistryError;
use crate::registry::{ChannelRegistry, ChannelValue};
use crate::weave::names_view;

verus! {

/// Keys that map the fields of a block's input or output to channel names.
///
/// The spec functions describe an implementation; each implementation in this
/// library defines them, and where one does not they stay unspecified.
pub trait ChannelKeys {
    /// The channel names, in field order.
    open spec fn channel_names_spec(&self) -> Seq<Seq<char>> {
        arbitrary()
    }

    fn channel_names(&self) -> (r: Vec<String>)
        ensures
            names_view(r@) == self.channel_names_spec(),
    ;
}

/// Reads values of type `T` from the channels of a registry.
///
/// The spec functions describe an implementation; each implementation in this
/// library defines them, and where one does not they stay unspecified.
pub trait Reader<T> {
    /// What reading gives for a registry whose channels are `channels`.
    open spec fn read_spec(&self, channels: Map<Seq<char>, ChannelValue>) -> Option<T> {
        arbitrary()
    }

    fn read(&self, registry: &ChannelRegistry) -> (r: Option<T>)
        ensures
            r == self.read_spec(registry@),
    ;
}

/// Writes values of type `T` into the channels of a registry.
///
/// The spec functions describe an implementation; each implementation in this
/// library defines them, and where one does not they stay unspecified.
pub trait Writer<T> {
    /// The channels after writing `value` into `channels`.
    open spec fn write_spec(&self, channels: Map<Seq<char>, ChannelValue>, value: T) -> Map<
        Seq<char>,
        ChannelValue,
    > {
        arbitrary()
    }

    fn write(&self, registry: &mut ChannelRegistry, value: &T)
        ensures
            final(registry)@ == self.write_spec(old(registry)@, *value),
    ;
}

/// Keys that can make a reader of `T` against a registry.
pub trait InputKeys<T>: ChannelKeys {
    type ReaderType: Reader<T>;

    /// Whether a reader can be made against channels `channels`.
    open spec fn reader_ok(&self, channels: Map<Seq<char>, ChannelValue>) -> bool {
        arbitrary()
    }

    /// Whether `e` is the error making a reader against channels `channels`
    /// gives.
    open spec fn reader_fails_with(&self, channels: Map<Seq<char>, ChannelValue>, e: RegistryError) -> bool {
        arbitrary()
    }

    /// A reader of the channels, which must exist with the right types.
    fn reader(&self, registry: &ChannelRegistry) -> (r: Result<Self::ReaderType, RegistryError>)
        ensures
            r is Ok <==> self.reader_ok(registry@),
            r matches Err(e) ==> self.reader_fails_with(registry@, e),
    ;
}

/// Keys that can register their channels and make a writer of `T`.
pub trait OutputKeys<T>: ChannelKeys {
    type WriterType: Writer<T>;

    /// Whether a writer can be made against channels `channels`.
    open spec fn writer_ok(&self, channels: Map<Seq<char>, ChannelValue>) -> bool {
        arbitrary()
    }

    /// Whether registering into channels `channels` succeeds.
    open spec fn register_ok(&self, channels: Map<Seq<char>, ChannelValue>) -> bool {
        arbitrary()
    }

    /// The channels after registering into channels `channels`.
    open spec fn registered(&self, channels: Map<Seq<char>, ChannelValue>) -> Map<
        Seq<char>,
        ChannelValue,
    > {
        arbitrary()
    }

    /// Whether `e` is the error making a writer against channels `channels`
    /// gives.
    open spec fn writer_fails_with(&self, channels: Map<Seq<char>, ChannelValue>, e: RegistryError) -> bool {
        arbitrary()
    }

    /// A writer of the channels, which must exist with the right types.
    fn writer(&self, registry: &ChannelRegistry) -> (r: Result<Self::WriterType, RegistryError>)
        ensures
            r is Ok <==> self.writer_ok(registry@),
            r matches Err(e) ==> self.writer_fails_with(registry@, e),
    ;

    /// Creates the channels that do not exist yet.
    fn register(&self, registry: &mut ChannelRegistry) -> (r: Result<(), RegistryError>)
        ensures
            r is Ok <==> self.register_ok(old(registry)@),
            final(registry)@ == self.registered(old(registry)@),
    ;
}

/// Whether the channels `m1` and `m2` agree on every channel named in
/// `names`: each such channel exists in both or in neither, and holds the same
/// value where it exists.
pub open spec fn agree_on(
    m1: Map<Seq<char>, ChannelValue>,
    m2: Map<Seq<char>, ChannelValue>,
    names: Seq<Seq<char>>,
) -> bool {
    forall|n: Seq<char>|
        #![trigger names.contains(n)]
        names.contains(n) ==> m1.contains_key(n) == m2.contains_key(n) && (m1.contains_key(n)
            ==> m1[n] == m2[n])
}

/// Whether `m2` is `m1` on every channel not named in `names`.
pub open spec fn same_outside(
    m1: Map<Seq<char>, ChannelValue>,
    m2: Map<Seq<char>, ChannelValue>,
    names: Seq<Seq<char>>,
) -> bool {
    forall|n: Seq<char>|
        !names.contains(n) ==> (m2.contains_key(n) == m1.contains_key(n) && (m1.contains_key(n)
            ==> #[trigger] m2[n] == m1[n]))
}

/// The value of the `bool` channel `key`, if there is one.
pub open spec fn bool_channel(channels: Map<Seq<char>, ChannelValue>, key: Seq<char>) -> Option<
    bool,
> {
    if channels.contains_key(key) && channels[key] is Bool {
        Some(channels[key]->Bool_0)
    } else {
        None
    }
}

/// The value of the `i32` channel `key`, if there is one.
pub open spec fn i32_channel(channels: Map<Seq<char>, ChannelValue>, key: Seq<char>) -> Option<
    i32,
> {
    if channels.contains_key(key) && channels[key] is I32 {
        Some(channels[key]->I32_0)
    } else {
        None
    }
}

/// Reads the `bool` channel `key`.
pub fn read_bool(registry: &ChannelRegistry, key: &str) -> (r: Option<bool>)
    ensures
        r == bool_channel(registry@, key@),
{
    match registry.get::<bool>(key) {
        Ok(b) => Some(b),
        Err(_) => None,
    }
}

/// Reads the `i32` channel `key`.
pub fn read_i32(registry: &ChannelRegistry, key: &str) -> (r: Option<i32>)
    ensures
        r == i32_channel(registry@, key@),
{
    match registry.get::<i32>(key) {
        Ok(x) => Some(x),
        Err(_) => None,
    }
}

} // verus!
