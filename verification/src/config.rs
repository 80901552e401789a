//! What a watcher is set up with.

use crate::error::FileWatcherError;
use crate::path::{components, is_absolute, is_absolute_path, join, joined, NormalPath};
use core::marker::PhantomData;
use std::time::Duration;
use vstd::prelude::*;
use vstd::string::StringSliceAdditionalSpecFns;

verus! {

/// The error of a parser that cannot fail. It has no value.
#[derive(Debug)]
pub enum Infallible {
    Never(core::convert::Infallible),
}

/// The duration that `Duration::from_secs` makes of a number of seconds.
pub uninterp spec fn duration_from_secs(secs: u64) -> Duration;

/// `Duration::from_secs`: the result depends on the number of seconds alone.
/// Nothing else is claimed of it.
pub assume_specification[ Duration::from_secs ](secs: u64) -> (d: Duration)
    ensures
        d == duration_from_secs(secs),
;

/// The number of values that may wait in the channel to the consumer. When it
/// is full the supervisor waits with it; no value is dropped.
pub const CHANNEL_CAPACITY: usize = 3;

/// The pause before a retry, in seconds, unless another is asked for.
pub const DEFAULT_RETRY_SECS: u64 = 1;

/// The setup of a watcher that hands out values of `T`, made by the parser
/// `P`, which may fail with an `E`.
pub struct FileWatcherConfig<T, E, P> {
    /// What the file is called in reports.
    pub log_name: String,
    /// The path of the file, as the bytes that the operating system takes.
    pub file: Vec<u8>,
    /// Turns what the file holds into a value.
    pub parser: P,
    /// How long to pause before trying again what failed.
    pub retry_interval: Duration,
    /// Ties the kinds of value and error to the setup.
    pub marker: PhantomData<(T, E)>,
}

/// What stays of a setup once the watcher runs: the target in normal form and
/// what is needed for reports and pauses.
#[derive(Debug)]
pub struct WatcherContext {
    pub file: NormalPath,
    pub log_name: String,
    pub retry_interval: Duration,
}

/// The path that is watched: a relative one is read from the working
/// directory, where that is known.
pub open spec fn absolutized(file: Seq<u8>, cwd: Option<Seq<u8>>) -> Seq<u8> {
    match cwd {
        Some(dir) => if is_absolute(file) {
            file
        } else {
            joined(dir, file)
        },
        None => file,
    }
}

/// The parser that hands the bytes on as they are.
#[derive(Debug, Clone, Copy)]
pub struct PassThrough;

/// The parser that a function from bytes to a value or an error makes.
pub struct FnParser<F> {
    pub func: F,
}

impl WatcherContext {
    /// What the running watcher keeps of a setup with this path, name and
    /// pause, or `None` where the path is relative and no working directory
    /// is known to read it from, or the working directory given is itself no
    /// absolute path.
    pub fn derive(
        file: &Vec<u8>,
        log_name: &String,
        retry_interval: Duration,
        cwd: Option<&Vec<u8>>,
    ) -> (r: Option<WatcherContext>)
        ensures
            ({
                let path = absolutized(
                    file@,
                    match cwd {
                        Some(dir) => Some(dir@),
                        None => None,
                    },
                );
                &&& r.is_some() == is_absolute(path)
                &&& r.is_some() ==> r.unwrap().file@ == components(path)
                &&& r.is_some() ==> r.unwrap().log_name@ == log_name@
                &&& r.is_some() ==> r.unwrap().retry_interval == retry_interval
            }),
    {
        let path = match cwd {
            Some(dir) => {
                if is_absolute_path(file) {
                    crate::path::copy_bytes(file)
                } else {
                    join(dir, file)
                }
            },
            None => crate::path::copy_bytes(file),
        };
        if !is_absolute_path(&path) {
            return None;
        }
        Some(WatcherContext { file: NormalPath::parse(&path), log_name: log_name.clone(), retry_interval })
    }
}

impl FileWatcherConfig<Vec<u8>, Infallible, PassThrough> {
    /// A watcher of `file` that hands out what the file holds, byte for byte,
    /// and pauses for one second before a retry.
    pub fn new(file: &str, log_name: &str) -> (c: Self)
        ensures
            c.file@ == file.spec_bytes(),
            c.log_name@ == log_name@,
            c.retry_interval == duration_from_secs(DEFAULT_RETRY_SECS),
    {
        FileWatcherConfig {
            log_name: log_name.to_owned(),
            file: file.as_bytes_vec(),
            parser: PassThrough,
            retry_interval: Duration::from_secs(DEFAULT_RETRY_SECS),
            marker: PhantomData,
        }
    }

    /// The same as `new` for a path given as the bytes that the operating
    /// system takes, which need not be text.
    pub fn from_bytes(file: Vec<u8>, log_name: &str) -> (c: Self)
        ensures
            c.file == file,
            c.log_name@ == log_name@,
            c.retry_interval == duration_from_secs(DEFAULT_RETRY_SECS),
    {
        FileWatcherConfig {
            log_name: log_name.to_owned(),
            file,
            parser: PassThrough,
            retry_interval: Duration::from_secs(DEFAULT_RETRY_SECS),
            marker: PhantomData,
        }
    }

    /// Turns the outcome of reading the file into the outcome of the whole
    /// attempt: a failed read is handed on, and what was read is the value.
    pub fn read_target(&self, raw: Result<Vec<u8>, std::io::Error>) -> (r: Result<
        Vec<u8>,
        FileWatcherError<Infallible>,
    >)
        ensures
            r == match raw {
                Err(error) => Err::<Vec<u8>, FileWatcherError<Infallible>>(
                    FileWatcherError::Io(error),
                ),
                Ok(bytes) => Ok(bytes),
            },
    {
        match raw {
            Err(error) => Err(FileWatcherError::Io(error)),
            Ok(bytes) => Ok(bytes),
        }
    }
}

impl<T, E, F: Fn(Vec<u8>) -> Result<T, E>> FileWatcherConfig<T, E, FnParser<F>> {
    /// Whether the parser takes every input.
    pub open spec fn well_formed(&self) -> bool {
        forall|raw: Vec<u8>| self.parser.func.requires((raw,))
    }

    /// Turns the outcome of reading the file into the outcome of the whole
    /// attempt: a failed read is handed on, and what was read goes through
    /// the parser, whose verdict is final.
    pub fn read_target(&self, raw: Result<Vec<u8>, std::io::Error>) -> (r: Result<
        T,
        FileWatcherError<E>,
    >)
        requires
            self.well_formed(),
        ensures
            match raw {
                Err(error) => r == Err::<T, FileWatcherError<E>>(FileWatcherError::Io(error)),
                Ok(bytes) => match r {
                    Ok(value) => self.parser.func.ensures((bytes,), Ok(value)),
                    Err(FileWatcherError::Parse(error)) => self.parser.func.ensures(
                        (bytes,),
                        Err(error),
                    ),
                    Err(FileWatcherError::Io(_)) => false,
                },
            },
    {
        match raw {
            Err(error) => Err(FileWatcherError::Io(error)),
            Ok(bytes) => match (self.parser.func)(bytes) {
                Ok(value) => Ok(value),
                Err(error) => Err(FileWatcherError::Parse(error)),
            },
        }
    }
}

impl<T, E, P> FileWatcherConfig<T, E, P> {
    /// The same watcher with another parser, and with it another kind of
    /// value and of error.
    pub fn with_parser<U, F, Q: Fn(Vec<u8>) -> Result<U, F>>(self, func: Q) -> (c:
        FileWatcherConfig<U, F, FnParser<Q>>)
        ensures
            c.log_name == self.log_name,
            c.file == self.file,
            c.retry_interval == self.retry_interval,
            c.parser.func == func,
    {
        FileWatcherConfig {
            log_name: self.log_name,
            file: self.file,
            parser: FnParser { func },
            retry_interval: self.retry_interval,
            marker: PhantomData,
        }
    }

    /// The same watcher with another pause before a retry.
    pub fn with_retry_interval(self, retry_interval: Duration) -> (c: Self)
        ensures
            c.log_name == self.log_name,
            c.file == self.file,
            c.parser == self.parser,
            c.retry_interval == retry_interval,
    {
        let mut c = self;
        c.retry_interval = retry_interval;
        c
    }

    /// The path that is watched. `cwd` is the working directory, if it is
    /// known; a relative path is read from there.
    pub fn absolute_file(&self, cwd: Option<&Vec<u8>>) -> (path: Vec<u8>)
        ensures
            path@ == absolutized(
                self.file@,
                match cwd {
                    Some(dir) => Some(dir@),
                    None => None,
                },
            ),
    {
        match cwd {
            Some(dir) => {
                if is_absolute_path(&self.file) {
                    crate::path::copy_bytes(&self.file)
                } else {
                    join(dir, &self.file)
                }
            },
            None => crate::path::copy_bytes(&self.file),
        }
    }

    /// What the running watcher keeps of the setup, or `None` where the path
    /// is relative and no working directory is known to read it from, or the
    /// working directory given is itself no absolute path.
    pub fn watcher_context(&self, cwd: Option<&Vec<u8>>) -> (r: Option<WatcherContext>)
        ensures
            ({
                let path = absolutized(
                    self.file@,
                    match cwd {
                        Some(dir) => Some(dir@),
                        None => None,
                    },
                );
                &&& r.is_some() == is_absolute(path)
                &&& r.is_some() ==> r.unwrap().file@ == components(path)
                &&& r.is_some() ==> r.unwrap().log_name@ == self.log_name@
                &&& r.is_some() ==> r.unwrap().retry_interval == self.retry_interval
            }),
    {
        WatcherContext::derive(&self.file, &self.log_name, self.retry_interval, cwd)
    }
}

} // verus!
