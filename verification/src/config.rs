//! Runtime configuration values the node is built with.

use vstd::prelude::*;

verus! {

/// The default worker thread stack size, in bytes.
pub const DEFAULT_THREAD_STACK_SIZE: usize = 3145728;

/// Builder for the runtime configuration; unset fields take defaults.
pub struct TokioConfigBuilder {
    pub core_threads: usize,
    pub thread_name: Option<String>,
    pub thread_stack_size: Option<usize>,
}

/// The finished runtime configuration.
pub struct TokioConfig {
    pub core_threads: usize,
    pub thread_name: String,
    pub thread_stack_size: usize,
}

impl TokioConfigBuilder {
    pub fn new(core_threads: usize) -> (r: Self)
        ensures
            r.core_threads == core_threads,
            r.thread_name is None,
            r.thread_stack_size is None,
    {
        TokioConfigBuilder { core_threads, thread_name: None, thread_stack_size: None }
    }

    /// Builds the runtime configuration: a missing thread name falls back
    /// to "bee", a missing stack size to `DEFAULT_THREAD_STACK_SIZE`.
    pub fn finish(self) -> (r: TokioConfig)
        ensures
            r.core_threads == self.core_threads,
            match self.thread_name {
                Some(n) => r.thread_name == n,
                None => r.thread_name@ == "bee"@,
            },
            r.thread_stack_size == (match self.thread_stack_size {
                Some(s) => s,
                None => DEFAULT_THREAD_STACK_SIZE,
            }),
    {
        let thread_name = match self.thread_name {
            Some(n) => n,
            None => {
                let n = String::from_str("bee");
                n
            },
        };
        TokioConfig {
            core_threads: self.core_threads,
            thread_name,
            thread_stack_size: match self.thread_stack_size {
                Some(s) => s,
                None => DEFAULT_THREAD_STACK_SIZE,
            },
        }
    }
}

} // verus!
