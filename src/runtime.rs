use vstd::prelude::*;
use vstd::string::StringSliceAdditionalSpecFns;
use vstd::utf8::encode_utf8;

use crate::config::{arg_text, find_key, first_key_at, has_key, ArgType};
use crate::status::{PipelineStatus, StepStatus};

verus! {

/// The bytes that one `log` call appends: the message's UTF-8 encoding and
/// a newline.
pub open spec fn log_line(message: Seq<char>) -> Seq<u8> {
    encode_utf8(message).push(10u8)
}

/// Argument `k` in its canonical text, where the step declares it.
pub open spec fn arg_value(args: Seq<(String, ArgType)>, k: Seq<char>) -> Option<Seq<char>> {
    if has_key(args, k) {
        Some(arg_text(args[choose|i: int| first_key_at(args, k, i)].1))
    } else {
        None
    }
}

/// I/O binding `k`, where the step declares it.
pub open spec fn io_value(io: Seq<(String, String)>, k: Seq<char>) -> Option<Seq<char>> {
    if has_key(io, k) {
        Some(io[choose|i: int| first_key_at(io, k, i)].1@)
    } else {
        None
    }
}

pub proof fn lemma_first_key_unique<V>(s: Seq<(String, V)>, k: Seq<char>, i: int, j: int)
    requires
        first_key_at(s, k, i),
        first_key_at(s, k, j),
    ensures
        i == j,
{
    if i < j {
        assert(s[i].0@ != k);
    } else if j < i {
        assert(s[j].0@ != k);
    }
}

/// What an executing step sees: its own status and config, its pipeline's
/// status, the submission's files, and a log buffer.
pub struct StepContext {
    pub status: StepStatus,
    pub pipeline_status: PipelineStatus,
    pub files: Vec<(String, Vec<u8>)>,
    pub log_buffer: Vec<u8>,
}

impl StepContext {
    /// The accumulated log.
    pub open spec fn log_view(&self) -> Seq<u8> {
        self.log_buffer@
    }

    /// The submission's file bundle.
    pub open spec fn files_view(&self) -> Seq<(String, Vec<u8>)> {
        self.files@
    }

    pub fn new(status: StepStatus, pipeline_status: PipelineStatus, files: Vec<(String, Vec<u8>)>) -> (r: StepContext)
        ensures
            r.status == status,
            r.pipeline_status == pipeline_status,
            r.files_view() == files@,
            r.log_view() == Seq::<u8>::empty(),
    {
        StepContext { status, pipeline_status, files, log_buffer: Vec::new() }
    }

    /// Appends `message` and a newline to the log.
    pub fn log(&mut self, message: &str)
        ensures
            final(self).log_view() == old(self).log_view() + log_line(message@),
            final(self).status == old(self).status,
            final(self).pipeline_status == old(self).pipeline_status,
            final(self).files == old(self).files,
    {
        let bytes = message.as_bytes();
        let ghost start = self.log_buffer@;
        let mut i: usize = 0;
        while i < bytes.len()
            invariant
                0 <= i <= bytes@.len(),
                bytes@ == message.spec_bytes(),
                self.log_buffer@ == start + bytes@.take(i as int),
                self.status == old(self).status,
                self.pipeline_status == old(self).pipeline_status,
                self.files == old(self).files,
                start == old(self).log_buffer@,
            decreases bytes@.len() - i,
        {
            self.log_buffer.push(bytes[i]);
            i += 1;
            assert(self.log_buffer@ =~= start + bytes@.take(i as int));
        }
        self.log_buffer.push(10u8);
        assert(bytes@.take(bytes@.len() as int) =~= bytes@);
        assert(self.log_buffer@ =~= start + log_line(message@));
    }

    /// A copy of the log so far.
    pub fn get_log(&self) -> (r: Vec<u8>)
        ensures
            r@ == self.log_view(),
    {
        let r = self.log_buffer.clone();
        assert(r@ =~= self.log_buffer@);
        r
    }

    /// Whether the step declares argument `name`.
    pub fn has_arg(&self, name: &str) -> (r: bool)
        ensures
            r == has_key(self.status.config.args@, name@),
    {
        find_key(&self.status.config.args, name).is_some()
    }

    /// Argument `name` in its canonical text form.
    pub fn get_arg(&self, name: &str) -> (r: Option<String>)
        ensures
            match r {
                Some(v) => exists|i: int|
                    first_key_at(self.status.config.args@, name@, i) && v@ == arg_text(self.status.config.args@[i].1),
                None => !has_key(self.status.config.args@, name@),
            },
            match r {
                Some(v) => arg_value(self.status.config.args@, name@) == Some(v@),
                None => arg_value(self.status.config.args@, name@) is None,
            },
    {
        match find_key(&self.status.config.args, name) {
            Some(i) => {
                let v = self.status.config.args[i].1.render();
                let ghost args = self.status.config.args@;
                proof {
                    assert(first_key_at(args, name@, i as int));
                    let j = choose|j: int| first_key_at(args, name@, j);
                    lemma_first_key_unique(args, name@, i as int, j);
                }
                Some(v)
            },
            None => None,
        }
    }

    /// Whether the step declares I/O binding `name`.
    pub fn has_io(&self, name: &str) -> (r: bool)
        ensures
            r == has_key(self.status.config.io@, name@),
    {
        find_key(&self.status.config.io, name).is_some()
    }

    /// I/O binding `name`.
    pub fn get_io(&self, name: &str) -> (r: Option<String>)
        ensures
            match r {
                Some(v) => exists|i: int|
                    first_key_at(self.status.config.io@, name@, i) && v@ == self.status.config.io@[i].1@,
                None => !has_key(self.status.config.io@, name@),
            },
            match r {
                Some(v) => io_value(self.status.config.io@, name@) == Some(v@),
                None => io_value(self.status.config.io@, name@) is None,
            },
    {
        match find_key(&self.status.config.io, name) {
            Some(i) => {
                let v = self.status.config.io[i].1.clone();
                let ghost io = self.status.config.io@;
                proof {
                    assert(first_key_at(io, name@, i as int));
                    let j = choose|j: int| first_key_at(io, name@, j);
                    lemma_first_key_unique(io, name@, i as int, j);
                }
                Some(v)
            },
            None => None,
        }
    }

    /// The bundled bytes under `name`.
    pub fn get_file(&self, name: &str) -> (r: Option<&Vec<u8>>)
        ensures
            match r {
                Some(b) => exists|i: int| first_key_at(self.files_view(), name@, i) && b@ == self.files_view()[i].1@,
                None => !has_key(self.files_view(), name@),
            },
    {
        match find_key(&self.files, name) {
            Some(i) => {
                let b = &self.files[i].1;
                assert(first_key_at(self.files_view(), name@, i as int) && b@ == self.files_view()[i as int].1@);
                Some(b)
            },
            None => None,
        }
    }
}

} // verus!
