//! Type-keyed dependency injection: the bookkeeping of a container.
//!
//! Each type that can be provided is known here by a numeric key and a name.
//! The container holds the registered providers, the values built so far, the
//! queue of invokables, and the resolution path of the types being built at
//! the moment, against which a dependency cycle is detected.
//!
//! Running a provider or an invokable (an asynchronous call) is left to the
//! caller: this library decides what to run next and what to answer, and the
//! caller performs the run and reports its outcome back.

pub mod container;
pub mod error;
pub mod invoke;

pub use container::{Container, ContainerView, Lookup};
pub use error::{
    Cycle, InvokeError, InvokeErrorView, ProviderError, ProviderErrorView, ResolutionEntry,
};
pub use invoke::{InvokeRun, InvokeStep};
