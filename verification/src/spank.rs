//! What the plugin reads through its SPANK handle.
use crate::text::{self, c_text};
use vstd::prelude::*;
use vstd::slice::slice_to_vec;
use vstd::utf8::*;

verus! {

/// Successful SPANK operation.
pub const ESPANK_SUCCESS: i32 = 0;

/// SPANK item identifiers, in the order of their numbers.
#[allow(non_camel_case_types)]
#[derive(Debug, Clone, Copy, PartialEq, Eq, Structural)]
pub enum SpankItem {
    S_JOB_UID,
    S_JOB_GID,
    S_JOB_ID,
    S_JOB_STEPID,
    S_JOB_NNODES,
    S_JOB_NODEID,
    S_JOB_LOCAL_TASK_COUNT,
    S_JOB_TOTAL_TASK_COUNT,
    S_JOB_NCPUS,
    S_JOB_ARGV,
    S_JOB_ENV,
    S_TASK_ID,
    S_TASK_GLOBAL_ID,
    S_TASK_EXIT_STATUS,
    S_TASK_PID,
    S_JOB_PID_TO_GLOBAL_ID,
    S_JOB_PID_TO_LOCAL_ID,
    S_JOB_LOCAL_TO_GLOBAL_ID,
    S_JOB_GLOBAL_TO_LOCAL_ID,
    S_JOB_SUPPLEMENTARY_GIDS,
    S_SLURM_VERSION,
    S_SLURM_VERSION_MAJOR,
    S_SLURM_VERSION_MINOR,
    S_SLURM_VERSION_MICRO,
    S_STEP_CPUS_PER_TASK,
    S_JOB_ALLOC_CORES,
    S_JOB_ALLOC_MEM,
    S_STEP_ALLOC_CORES,
    S_STEP_ALLOC_MEM,
    S_SLURM_RESTART_COUNT,
    S_JOB_ARRAY_ID,
    S_JOB_ARRAY_TASK_ID,
}

/// SPANK execution contexts, in the order of their numbers.
#[allow(non_camel_case_types)]
#[derive(Debug, Clone, Copy, PartialEq, Eq, Structural)]
pub enum SpankContext {
    S_CTX_ERROR,
    S_CTX_LOCAL,
    S_CTX_REMOTE,
    S_CTX_ALLOCATOR,
    S_CTX_SLURMD,
    S_CTX_JOB_SCRIPT,
}

impl SpankContext {
    /// The number of a context.
    pub open spec fn code(self) -> i32 {
        match self {
            SpankContext::S_CTX_ERROR => 0,
            SpankContext::S_CTX_LOCAL => 1,
            SpankContext::S_CTX_REMOTE => 2,
            SpankContext::S_CTX_ALLOCATOR => 3,
            SpankContext::S_CTX_SLURMD => 4,
            SpankContext::S_CTX_JOB_SCRIPT => 5,
        }
    }

    /// The context that a number stands for. A number that stands for none is
    /// an error.
    pub fn from_code(code: i32) -> (context: Self)
        ensures
            0 <= code <= 5 ==> context.code() == code,
            !(0 <= code <= 5) ==> context == SpankContext::S_CTX_ERROR,
    {
        match code {
            1 => SpankContext::S_CTX_LOCAL,
            2 => SpankContext::S_CTX_REMOTE,
            3 => SpankContext::S_CTX_ALLOCATOR,
            4 => SpankContext::S_CTX_SLURMD,
            5 => SpankContext::S_CTX_JOB_SCRIPT,
            _ => SpankContext::S_CTX_ERROR,
        }
    }
}

/// What Slurm answered when it was asked for an unsigned item.
#[derive(Debug, Clone, Copy, PartialEq, Eq, Structural)]
pub struct ItemU32 {
    /// Status of the answer.
    pub status: i32,
    /// Value, which counts only where the status is success.
    pub value: u32,
}

/// What Slurm answered when it was asked for a signed item.
#[derive(Debug, Clone, Copy, PartialEq, Eq, Structural)]
pub struct ItemI32 {
    /// Status of the answer.
    pub status: i32,
    /// Value, which counts only where the status is success.
    pub value: i32,
}

/// What a SPANK handle tells of the job.
#[derive(Debug, Clone, Copy, PartialEq, Eq, Structural)]
pub struct Spank {
    remote: i32,
    context: SpankContext,
    uid: ItemU32,
    gid: ItemU32,
    id: ItemU32,
    tasks: ItemU32,
    exit: ItemI32,
}

/// What a SPANK handle tells, as a value.
pub struct SpankView {
    pub remote: i32,
    pub context: SpankContext,
    pub uid: ItemU32,
    pub gid: ItemU32,
    pub id: ItemU32,
    pub tasks: ItemU32,
    pub exit: ItemI32,
}

impl View for Spank {
    type V = SpankView;

    closed spec fn view(&self) -> SpankView {
        SpankView {
            remote: self.remote,
            context: self.context,
            uid: self.uid,
            gid: self.gid,
            id: self.id,
            tasks: self.tasks,
            exit: self.exit,
        }
    }
}

impl ItemU32 {
    /// The value, or the status that came in its place.
    pub open spec fn answer(self) -> Result<u32, i32> {
        if self.status == ESPANK_SUCCESS {
            Ok(self.value)
        } else {
            Err(self.status)
        }
    }

    fn result(self) -> (result: Result<u32, i32>)
        ensures
            result == self.answer(),
    {
        if self.status == ESPANK_SUCCESS {
            Ok(self.value)
        } else {
            Err(self.status)
        }
    }
}

impl ItemI32 {
    /// The value, or the status that came in its place.
    pub open spec fn answer(self) -> Result<i32, i32> {
        if self.status == ESPANK_SUCCESS {
            Ok(self.value)
        } else {
            Err(self.status)
        }
    }

    fn result(self) -> (result: Result<i32, i32>)
        ensures
            result == self.answer(),
    {
        if self.status == ESPANK_SUCCESS {
            Ok(self.value)
        } else {
            Err(self.status)
        }
    }
}

impl Spank {
    /// Takes what Slurm answered to `spank_remote` and `spank_context`, and for
    /// the items of the job and the task.
    pub fn from_answers(
        remote: i32,
        context: SpankContext,
        uid: ItemU32,
        gid: ItemU32,
        id: ItemU32,
        tasks: ItemU32,
        exit: ItemI32,
    ) -> (spank: Self)
        ensures
            spank@ == (SpankView { remote, context, uid, gid, id, tasks, exit }),
    {
        Spank { remote, context, uid, gid, id, tasks, exit }
    }

    /// Returns whether the plugin is running remotely.
    pub fn remote(self) -> (remote: bool)
        ensures
            remote == (self@.remote != 0),
    {
        self.remote != 0
    }

    /// Returns the current SPANK context.
    pub fn context(self) -> (context: SpankContext)
        ensures
            context == self@.context,
    {
        self.context
    }

    /// Returns the job UID.
    pub fn job_uid(self) -> (uid: Result<u32, i32>)
        ensures
            uid == self@.uid.answer(),
    {
        self.uid.result()
    }

    /// Returns the job GID.
    pub fn job_gid(self) -> (gid: Result<u32, i32>)
        ensures
            gid == self@.gid.answer(),
    {
        self.gid.result()
    }

    /// Returns the Slurm job ID.
    pub fn job_id(self) -> (id: Result<u32, i32>)
        ensures
            id == self@.id.answer(),
    {
        self.id.result()
    }

    /// Returns the number of local tasks.
    pub fn local_task_count(self) -> (tasks: Result<u32, i32>)
        ensures
            tasks == self@.tasks.answer(),
    {
        self.tasks.result()
    }

    /// Returns the task exit status.
    pub fn task_exit_status(self) -> (exit: Result<i32, i32>)
        ensures
            exit == self@.exit.answer(),
    {
        self.exit.result()
    }
}

/// A text as a NUL-terminated string; none where the text holds a NUL.
pub open spec fn terminated(text: Seq<char>) -> Option<Seq<u8>> {
    let bytes = encode_utf8(text);
    if text::before_nul(bytes).len() < bytes.len() {
        None
    } else {
        Some(bytes.push(0))
    }
}

/// Makes a NUL-terminated string for a call to Slurm.
pub fn c_bytes(text: &str) -> (bytes: Option<Vec<u8>>)
    ensures
        match terminated(text@) {
            Some(expected) => bytes is Some && bytes->Some_0@ == expected,
            None => bytes is None,
        },
{
    let plain = text.as_bytes();
    if text::nul_position(plain) < plain.len() {
        return None;
    }
    let mut bytes = slice_to_vec(plain);
    bytes.push(0);
    Some(bytes)
}

/// Reads an environment variable of the job: `status` and `buffer` are what
/// Slurm returned.
pub fn getenv(status: i32, buffer: &[u8]) -> (value: Option<String>)
    ensures
        status == ESPANK_SUCCESS ==> value is Some && value->Some_0@ == text::lossy_utf8(
            text::before_nul(buffer@),
        ),
        status != ESPANK_SUCCESS ==> value is None,
{
    if status == ESPANK_SUCCESS {
        Some(c_text(buffer))
    } else {
        None
    }
}

/// The strings with which an environment variable of the job is set: its name
/// and its value. A NUL in either is refused with -1.
pub fn setenv(name: &str, value: &str) -> (strings: Result<(Vec<u8>, Vec<u8>), i32>)
    ensures
        match (terminated(name@), terminated(value@)) {
            (Some(first), Some(second)) => strings is Ok && strings->Ok_0.0@ == first
                && strings->Ok_0.1@ == second,
            _ => strings == Err::<(Vec<u8>, Vec<u8>), i32>(-1i32),
        },
{
    match (c_bytes(name), c_bytes(value)) {
        (Some(name), Some(value)) => Ok((name, value)),
        _ => Err(-1),
    }
}

/// Turns the status of a SPANK call into a result.
pub fn status_result(status: i32) -> (result: Result<(), i32>)
    ensures
        status == ESPANK_SUCCESS ==> result == Ok::<(), i32>(()),
        status != ESPANK_SUCCESS ==> result == Err::<(), i32>(status),
{
    if status == ESPANK_SUCCESS {
        Ok(())
    } else {
        Err(status)
    }
}

/// A buffer that begins with the NUL-terminated form of a text holds that text,
/// whatever stands behind it.
pub proof fn law_environment_round_trip(value: Seq<char>, rest: Seq<u8>)
    requires
        terminated(value) is Some,
    ensures
        text::before_nul(terminated(value)->Some_0 + rest) == encode_utf8(value),
{
    let bytes = encode_utf8(value);
    let buffer = bytes.push(0) + rest;
    lemma_no_nul(bytes);
    assert forall|i: int| 0 <= i < bytes.len() implies buffer[i] != 0 by {
        assert(buffer[i] == bytes[i]);
    }
    text::lemma_before_nul(buffer, bytes.len() as int);
    assert(buffer.take(bytes.len() as int) =~= bytes);
}

proof fn lemma_no_nul(bytes: Seq<u8>)
    requires
        text::before_nul(bytes).len() >= bytes.len(),
    ensures
        forall|i: int| 0 <= i < bytes.len() ==> bytes[i] != 0,
    decreases bytes.len(),
{
    if bytes.len() > 0 {
        let rest = bytes.skip(1);
        assert(bytes[0] != 0);
        lemma_no_nul(rest);
        assert forall|i: int| 0 <= i < bytes.len() implies bytes[i] != 0 by {
            if i > 0 {
                assert(rest[i - 1] == bytes[i]);
            }
        }
    }
}

/// An item has a value exactly where Slurm answered with the status 0; any other
/// status is handed on as it is.
pub proof fn law_answers_for_items(unsigned: ItemU32, signed: ItemI32)
    ensures
        unsigned.status == 0 ==> unsigned.answer() == Ok::<u32, i32>(unsigned.value),
        unsigned.status != 0 ==> unsigned.answer() == Err::<u32, i32>(unsigned.status),
        signed.status == 0 ==> signed.answer() == Ok::<i32, i32>(signed.value),
        signed.status != 0 ==> signed.answer() == Err::<i32, i32>(signed.status),
        ESPANK_SUCCESS == 0,
{
}

/// The contexts are numbered from 0 to 5, the error first.
pub proof fn law_context_numbers(context: SpankContext)
    ensures
        context.code() == match context {
            SpankContext::S_CTX_ERROR => 0i32,
            SpankContext::S_CTX_LOCAL => 1i32,
            SpankContext::S_CTX_REMOTE => 2i32,
            SpankContext::S_CTX_ALLOCATOR => 3i32,
            SpankContext::S_CTX_SLURMD => 4i32,
            SpankContext::S_CTX_JOB_SCRIPT => 5i32,
        },
{
}

/// A text goes to Slurm as its bytes with a NUL behind them, and a text that
/// holds a NUL does not go at all.
pub proof fn law_strings_for_slurm(text: Seq<char>)
    ensures
        !encode_utf8(text).contains(0u8) ==> terminated(text) == Some(encode_utf8(text).push(0u8)),
        encode_utf8(text).contains(0u8) ==> terminated(text) is None,
{
    let bytes = encode_utf8(text);
    if bytes.contains(0u8) {
        if text::before_nul(bytes).len() >= bytes.len() {
            lemma_no_nul(bytes);
            let i = choose|i: int| 0 <= i < bytes.len() && bytes[i] == 0u8;
            assert(bytes[i] != 0);
        }
    } else {
        assert forall|i: int| 0 <= i < bytes.len() implies bytes[i] != 0 by {
            assert(bytes.contains(bytes[i]));
        }
        text::lemma_before_nul(bytes, bytes.len() as int);
    }
}

} // verus!
