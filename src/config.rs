use std::path::PathBuf;

use vstd::prelude::*;

use crate::consts::{
    DEFAULT_CHANNEL_SIZE, DEFAULT_INDEX_SIZE, DEFAULT_LOG_SIZE, HEADER_SIZE, INDEX_SIZE, MAX_LOG_SIZE,
    MIN_LOG_SIZE,
};
use crate::error::ErrorType;
use crate::formats::Log;
use crate::segment::log_limit;

verus! {

#[verifier::external_type_specification]
#[verifier::external_body]
pub struct ExPathBuf(std::path::PathBuf);

/// Relies on `PathBuf::clone`, which the derived `Clone` of `TopicBuilder`
/// calls; nothing is claimed of the copy.
pub assume_specification[ <std::path::PathBuf as std::clone::Clone>::clone ](p: &std::path::PathBuf) -> std::path::PathBuf;

/// Relies on `std::path::Path::join`: the path of `name` under `dir`.
#[verifier::external_body]
fn join_path(dir: &PathBuf, name: &String) -> (r: PathBuf) {
    dir.join(name)
}

/// The configuration of a topic: its name, the directory that holds its
/// directory, the usable sizes of its data and index files, and the depth
/// of its writer channel.
#[derive(Debug, Clone, PartialEq, Eq, Hash)]
pub struct TopicBuilder {
    topic: String,
    dir: PathBuf,
    log_size: u64,
    index_size: u64,
    channel_size: u32,
}

impl TopicBuilder {
    pub closed spec fn spec_topic(&self) -> Seq<char> {
        self.topic@
    }

    pub closed spec fn spec_dir(&self) -> PathBuf {
        self.dir
    }

    pub closed spec fn spec_log_size(&self) -> u64 {
        self.log_size
    }

    pub closed spec fn spec_index_size(&self) -> u64 {
        self.index_size
    }

    pub closed spec fn spec_channel_size(&self) -> u32 {
        self.channel_size
    }

    /// A configuration for `topic` under `dir`, with the default sizes.
    pub fn new_with_dir(topic: String, dir: PathBuf) -> (r: TopicBuilder)
        ensures
            r.spec_topic() == topic@,
            r.spec_dir() == dir,
            r.spec_log_size() == DEFAULT_LOG_SIZE,
            r.spec_index_size() == DEFAULT_INDEX_SIZE,
            r.spec_channel_size() == DEFAULT_CHANNEL_SIZE,
    {
        TopicBuilder {
            topic,
            dir,
            log_size: DEFAULT_LOG_SIZE,
            index_size: DEFAULT_INDEX_SIZE,
            channel_size: DEFAULT_CHANNEL_SIZE,
        }
    }

    /// Sets the directory that holds the topic's directory.
    pub fn with_directory(self, dir: PathBuf) -> (r: TopicBuilder)
        ensures
            r.spec_dir() == dir,
            r.spec_topic() == self.spec_topic(),
            r.spec_log_size() == self.spec_log_size(),
            r.spec_index_size() == self.spec_index_size(),
            r.spec_channel_size() == self.spec_channel_size(),
    {
        TopicBuilder { dir, ..self }
    }

    /// Sets the usable size of each data file.
    pub fn with_log_size(self, log_size: u64) -> (r: TopicBuilder)
        ensures
            r.spec_log_size() == log_size,
            r.spec_topic() == self.spec_topic(),
            r.spec_dir() == self.spec_dir(),
            r.spec_index_size() == self.spec_index_size(),
            r.spec_channel_size() == self.spec_channel_size(),
    {
        TopicBuilder { log_size, ..self }
    }

    /// Sets the usable size of each index file.
    pub fn with_index_size(self, index_size: u64) -> (r: TopicBuilder)
        ensures
            r.spec_index_size() == index_size,
            r.spec_topic() == self.spec_topic(),
            r.spec_dir() == self.spec_dir(),
            r.spec_log_size() == self.spec_log_size(),
            r.spec_channel_size() == self.spec_channel_size(),
    {
        TopicBuilder { index_size, ..self }
    }

    /// Sets the depth of the writer channel: writers wait while it is full.
    pub fn with_channel_size(self, channel_size: u32) -> (r: TopicBuilder)
        ensures
            r.spec_channel_size() == channel_size,
            r.spec_topic() == self.spec_topic(),
            r.spec_dir() == self.spec_dir(),
            r.spec_log_size() == self.spec_log_size(),
            r.spec_index_size() == self.spec_index_size(),
    {
        TopicBuilder { channel_size, ..self }
    }

    /// The directory that holds the topic's `.limlog` and `.idx` files: the
    /// topic's name under the configured directory.
    pub fn topic_dir(&self) -> PathBuf {
        join_path(&self.dir, &self.topic)
    }

    pub fn topic(&self) -> (r: &String)
        ensures
            r@ == self.spec_topic(),
    {
        &self.topic
    }

    pub fn dir(&self) -> (r: &PathBuf)
        ensures
            *r == self.spec_dir(),
    {
        &self.dir
    }

    pub fn log_size(&self) -> (r: u64)
        ensures
            r == self.spec_log_size(),
    {
        self.log_size
    }

    pub fn index_size(&self) -> (r: u64)
        ensures
            r == self.spec_index_size(),
    {
        self.index_size
    }

    pub fn channel_size(&self) -> (r: u32)
        ensures
            r == self.spec_channel_size(),
    {
        self.channel_size
    }

    /// The usable sizes of the data and index files as `usize`, when each
    /// file, header included, can be addressed in memory.
    pub fn segment_sizes(&self) -> (r: Option<(usize, usize)>)
        ensures
            r is Some <==> self.spec_log_size() <= usize::MAX - HEADER_SIZE
                && self.spec_index_size() <= usize::MAX - HEADER_SIZE,
            match r {
                Some((log_size, index_size)) => log_size == self.spec_log_size()
                    && index_size == self.spec_index_size(),
                None => true,
            },
    {
        let max = (usize::MAX - HEADER_SIZE) as u64;
        if self.log_size > max || self.index_size > max {
            None
        } else {
            Some((self.log_size as usize, self.index_size as usize))
        }
    }

    /// Refuses a log that no segment of this topic could take: its encoding
    /// is larger than a data file's usable size or than the codec takes, or
    /// the index file cannot hold a single entry.
    pub fn check_log(&self, log: &Log) -> (r: Result<(), ErrorType>)
        ensures
            r is Ok <==> log.spec_byte_len() <= log_limit(self.spec_log_size() as int, self.spec_index_size() as int),
            r is Err ==> r->Err_0 == (ErrorType::LogTooLarge {
                size: if log.spec_byte_len() <= usize::MAX { log.spec_byte_len() as usize } else { usize::MAX },
                limit: log_limit(self.spec_log_size() as int, self.spec_index_size() as int) as usize,
            }),
    {
        let limit: usize = if self.index_size < INDEX_SIZE as u64 {
            0
        } else if self.log_size < MAX_LOG_SIZE as u64 {
            self.log_size as usize
        } else {
            MAX_LOG_SIZE
        };
        let body_len = log.body.len();
        if body_len > limit || limit - body_len < MIN_LOG_SIZE {
            let size = if body_len > usize::MAX - MIN_LOG_SIZE {
                usize::MAX
            } else {
                MIN_LOG_SIZE + body_len
            };
            Err(ErrorType::LogTooLarge { size, limit })
        } else {
            Ok(())
        }
    }
}

} // verus!
