//! What the window shows and decides: its state, and how results of background work change it.
use crate::text::{
    contains_text, decimal, decimal_text, find_last_word, first_chars, last_word, parse_u64,
    parsed_u64, stands_at, stands_in,
};
use std::path::PathBuf;
use vstd::prelude::*;
use vstd::string::{StrSliceExecFns, StringExecFns};
use vstd::utf8::encode_utf8;
use zeroize::Zeroize;

verus! {

/// How many mixing steps are used until the machine has been measured.
pub const DEFAULT_RAYO_STEPS: u64 = 10_000_000;

/// How many characters of a decrypted file are shown.
pub const PREVIEW_LEN: usize = 200;

/// `std::path::PathBuf`, the path of a file.
#[verifier::external_type_specification]
#[verifier::external_body]
pub struct ExPathBuf(PathBuf);

/// What is to be done with the chosen file.
#[derive(Clone, Copy, PartialEq, Eq, Structural, Debug)]
pub enum Operation {
    Encrypt,
    Decrypt,
}

/// How the status line is coloured.
#[derive(Clone, Copy, PartialEq, Eq, Structural, Debug)]
pub enum Tone {
    Working,
    Success,
    Failure,
}

/// How far the background work is.
#[derive(Clone, Copy, PartialEq, Eq, Structural, Debug)]
pub enum Progress {
    Idle,
    Running,
    Done,
}

/// What successful background work has to show.
pub struct TaskResult {
    pub message: String,
    pub preview: String,
}

/// The window's state.
pub struct AppState {
    pub operation: Operation,
    pub file_path: Option<PathBuf>,
    pub password: String,
    pub status: String,
    pub status_tone: Tone,
    pub preview: String,
    pub progress: Progress,
    pub padding_level: u8,
    pub anti_replay: bool,
    pub rayo_steps: u64,
    pub calibration_done: bool,
}

/// What a background job needs to know.
pub struct Job {
    pub operation: Operation,
    pub password: Vec<u8>,
    pub anti_replay: bool,
    pub padding_level: u8,
    pub rayo_steps: u64,
}

/// The mathematical view of `AppState`.
#[verifier::ext_equal]
pub struct AppView {
    pub operation: Operation,
    pub file_path: Option<PathBuf>,
    pub password: Seq<char>,
    pub status: Seq<char>,
    pub status_tone: Tone,
    pub preview: Seq<char>,
    pub progress: Progress,
    pub padding_level: u8,
    pub anti_replay: bool,
    pub rayo_steps: u64,
    pub calibration_done: bool,
}

impl View for AppState {
    type V = AppView;

    open spec fn view(&self) -> AppView {
        AppView {
            operation: self.operation,
            file_path: self.file_path,
            password: self.password@,
            status: self.status@,
            status_tone: self.status_tone,
            preview: self.preview@,
            progress: self.progress,
            padding_level: self.padding_level,
            anti_replay: self.anti_replay,
            rayo_steps: self.rayo_steps,
            calibration_done: self.calibration_done,
        }
    }
}

/// The number of steps that a message ends with, or the default where it ends otherwise.
pub open spec fn steps_in(message: Seq<char>) -> u64 {
    match last_word(message) {
        None => DEFAULT_RAYO_STEPS,
        Some(word) => match parsed_u64(word) {
            None => DEFAULT_RAYO_STEPS,
            Some(steps) => steps,
        },
    }
}

/// Whether a message reports a measurement of the machine.
pub open spec fn is_calibration(message: Seq<char>) -> bool {
    stands_in("Rayo calibrated"@, message)
}

/// The state after background work has succeeded.
pub open spec fn after_success(state: AppView, message: Seq<char>, preview: Seq<char>) -> AppView {
    AppView {
        status: message,
        status_tone: Tone::Success,
        preview: if preview.len() > 0 {
            preview
        } else {
            state.preview
        },
        progress: Progress::Done,
        rayo_steps: if is_calibration(message) {
            steps_in(message)
        } else {
            state.rayo_steps
        },
        calibration_done: state.calibration_done || is_calibration(message),
        ..state
    }
}

/// The state after background work has failed.
pub open spec fn after_failure(state: AppView, error: Seq<char>) -> AppView {
    AppView {
        status: error,
        status_tone: Tone::Failure,
        preview: Seq::empty(),
        progress: Progress::Idle,
        ..state
    }
}

/// The state after a job has been started.
pub open spec fn after_start(state: AppView) -> AppView {
    AppView {
        password: Seq::empty(),
        status: "⚡ Deriving key with Rayo machine..."@,
        status_tone: Tone::Working,
        progress: Progress::Running,
        ..state
    }
}

/// The text that reports a measurement of the machine.
pub open spec fn calibration_text(steps: u64) -> Seq<char> {
    "Rayo calibrated: "@ + decimal(steps as nat) + " steps"@
}

/// `Zeroize::zeroize` on a string: overwrites its characters and leaves it empty.
#[verifier::external_body]
fn wipe_text(text: &mut String)
    ensures
        final(text)@ == Seq::<char>::empty(),
{
    text.zeroize();
}

impl Default for AppState {
    fn default() -> (state: Self)
        ensures
            state@ == (AppView {
                operation: Operation::Encrypt,
                file_path: None,
                password: Seq::empty(),
                status: "Calibrating Rayo machine..."@,
                status_tone: Tone::Working,
                preview: Seq::empty(),
                progress: Progress::Idle,
                padding_level: 3,
                anti_replay: true,
                rayo_steps: DEFAULT_RAYO_STEPS,
                calibration_done: false,
            }),
    {
        AppState {
            operation: Operation::Encrypt,
            file_path: None,
            password: String::new(),
            status: "Calibrating Rayo machine...".to_owned(),
            status_tone: Tone::Working,
            preview: String::new(),
            progress: Progress::Idle,
            padding_level: 3,
            anti_replay: true,
            rayo_steps: DEFAULT_RAYO_STEPS,
            calibration_done: false,
        }
    }
}

/// A report of a measurement ends the calibration, whatever was measured.
pub proof fn law_calibration_report(state: AppView, steps: u64)
    ensures
        after_success(state, calibration_text(steps), Seq::empty()).calibration_done,
{
    let text = calibration_text(steps);
    reveal_strlit("Rayo calibrated: ");
    reveal_strlit("Rayo calibrated");
    assert(text.subrange(0, 15) =~= "Rayo calibrated"@);
    assert(stands_at("Rayo calibrated"@, text, 0));
}

/// Calibration is never undone, neither by success nor by failure nor by a new job.
pub proof fn law_calibration_is_kept(
    state: AppView,
    message: Seq<char>,
    preview: Seq<char>,
    error: Seq<char>,
)
    requires
        state.calibration_done,
    ensures
        after_success(state, message, preview).calibration_done,
        after_failure(state, error).calibration_done,
        after_start(state).calibration_done,
{
}

/// Neither results nor new jobs change what the user has chosen.
pub proof fn law_choices_are_kept(
    state: AppView,
    message: Seq<char>,
    preview: Seq<char>,
    error: Seq<char>,
    next: AppView,
)
    requires
        next == after_success(state, message, preview) || next == after_failure(state, error)
            || next == after_start(state),
    ensures
        next.operation == state.operation,
        next.file_path == state.file_path,
        next.padding_level == state.padding_level,
        next.anti_replay == state.anti_replay,
{
}

/// The report of a measurement of the machine.
pub fn calibration_report(steps: u64) -> (report: TaskResult)
    ensures
        report.message@ == calibration_text(steps),
        report.preview@ == Seq::<char>::empty(),
{
    let digits: String = decimal_text(steps);
    TaskResult {
        message: "Rayo calibrated: ".to_owned().concat(digits.as_str()).concat(" steps"),
        preview: String::new(),
    }
}

/// The report of a job that wrote the file `out`, or failed with an error; `outcome` has the
/// decrypted text where there is one.
pub fn job_report(operation: Operation, out: &str, outcome: Result<&str, &str>) -> (report: Result<
    TaskResult,
    String,
>)
    ensures
        match (outcome, report) {
            (Ok(content), Ok(task)) => match operation {
                Operation::Encrypt => task.message@ == "✔ Зашифровано: "@ + out@
                    && task.preview@.len() == 0,
                Operation::Decrypt => task.message@ == "✔ Расшифровано: "@ + out@
                    && task.preview@ == if content@.len() <= PREVIEW_LEN {
                    content@
                } else {
                    content@.take(PREVIEW_LEN as int)
                },
            },
            (Err(error), Err(text)) => text@ == "❌ Ошибка: "@ + error@,
            _ => false,
        },
{
    match outcome {
        Err(error) => Err("❌ Ошибка: ".to_owned().concat(error)),
        Ok(content) => match operation {
            Operation::Encrypt => Ok(
                TaskResult {
                    message: "✔ Зашифровано: ".to_owned().concat(out),
                    preview: String::new(),
                },
            ),
            Operation::Decrypt => Ok(
                TaskResult {
                    message: "✔ Расшифровано: ".to_owned().concat(out),
                    preview: first_chars(content, PREVIEW_LEN),
                },
            ),
        },
    }
}

/// What a padding level is called, with the range of its padding sizes as `law_level_sizes` in
/// `googol` gives it. Level zero is no padding; levels that cannot be chosen go by its name.
pub fn padding_label(level: u8) -> (label: &'static str)
    ensures
        label@ == match level {
            1u8 => "Стандартное (64K-8M)"@,
            2u8 => "Параноидальное (1M-128M)"@,
            3u8 => "Экономичное (16K-2M)"@,
            _ => "Отключено"@,
        },
{
    match level {
        1 => "Стандартное (64K-8M)",
        2 => "Параноидальное (1M-128M)",
        3 => "Экономичное (16K-2M)",
        _ => "Отключено",
    }
}

/// What a padding level is called for short.
pub fn padding_name(level: u8) -> (name: &'static str)
    ensures
        name@ == match level {
            1u8 => "Стандартное"@,
            2u8 => "Параноидальное"@,
            3u8 => "Экономичное"@,
            _ => "Отключено"@,
        },
{
    match level {
        1 => "Стандартное",
        2 => "Параноидальное",
        3 => "Экономичное",
        _ => "Отключено",
    }
}

/// The number of steps that a message ends with, or the default where it ends otherwise.
fn read_steps(message: &str) -> (steps: u64)
    ensures
        steps == steps_in(message@),
{
    match find_last_word(message) {
        None => DEFAULT_RAYO_STEPS,
        Some(word) => match parse_u64(word) {
            None => DEFAULT_RAYO_STEPS,
            Some(steps) => steps,
        },
    }
}

impl AppState {
    /// Whether the machine is still to be measured.
    pub fn needs_calibration(&self) -> (needed: bool)
        ensures
            needed == (!self.calibration_done && self.rayo_steps == DEFAULT_RAYO_STEPS),
    {
        !self.calibration_done && self.rayo_steps == DEFAULT_RAYO_STEPS
    }

    /// Whether a job can be started: a file was chosen, there is a password, and the machine was
    /// measured.
    pub fn can_start(&self) -> (can: bool)
        ensures
            can == (self.file_path is Some && self.password@.len() > 0 && self.calibration_done),
    {
        self.file_path.is_some() && !self.password.as_str().is_empty() && self.calibration_done
    }

    /// Takes in the result of background work.
    pub fn apply_result(&mut self, result: Result<TaskResult, String>)
        ensures
            match result {
                Ok(task) => final(self)@ == after_success(
                    old(self)@,
                    task.message@,
                    task.preview@,
                ),
                Err(error) => final(self)@ == after_failure(old(self)@, error@),
            },
    {
        match result {
            Ok(task) => {
                if contains_text(task.message.as_str(), "Rayo calibrated") {
                    self.rayo_steps = read_steps(task.message.as_str());
                    self.calibration_done = true;
                }
                self.status = task.message;
                self.status_tone = Tone::Success;
                if !task.preview.as_str().is_empty() {
                    self.preview = task.preview;
                }
                self.progress = Progress::Done;
            },
            Err(error) => {
                self.status = error;
                self.status_tone = Tone::Failure;
                self.preview = String::new();
                self.progress = Progress::Idle;
            },
        }
    }

    /// Starts a job: hands out what it needs, and wipes the password.
    pub fn start_job(&mut self) -> (job: Job)
        ensures
            final(self)@ == after_start(old(self)@),
            job.operation == old(self).operation,
            job.password@ == encode_utf8(old(self).password@),
            job.anti_replay == old(self).anti_replay,
            job.padding_level == old(self).padding_level,
            job.rayo_steps == old(self).rayo_steps,
    {
        let job: Job = Job {
            operation: self.operation,
            password: self.password.as_str().as_bytes_vec(),
            anti_replay: self.anti_replay,
            padding_level: self.padding_level,
            rayo_steps: self.rayo_steps,
        };
        wipe_text(&mut self.password);
        self.status = "⚡ Deriving key with Rayo machine...".to_owned();
        self.status_tone = Tone::Working;
        self.progress = Progress::Running;
        job
    }
}

/// What is seen of the state is what it holds.
pub proof fn law_app_view(state: AppState)
    ensures
        state@.operation == state.operation,
        state@.file_path == state.file_path,
        state@.password == state.password@,
        state@.status == state.status@,
        state@.status_tone == state.status_tone,
        state@.preview == state.preview@,
        state@.progress == state.progress,
        state@.padding_level == state.padding_level,
        state@.anti_replay == state.anti_replay,
        state@.rayo_steps == state.rayo_steps,
        state@.calibration_done == state.calibration_done,
{
}

/// A success is shown as it is reported. Only a report of a measurement touches the number of steps:
/// it becomes the number that the report ends with, or ten million. An empty preview leaves the one
/// before.
pub proof fn law_success(state: AppView, message: Seq<char>, preview: Seq<char>)
    ensures
        ({
            let next = after_success(state, message, preview);
            let calibrated = stands_in("Rayo calibrated"@, message);
            &&& next.status == message
            &&& next.status_tone == Tone::Success
            &&& next.progress == Progress::Done
            &&& next.preview == if preview.len() > 0 {
                preview
            } else {
                state.preview
            }
            &&& next.password == state.password
            &&& next.calibration_done == (state.calibration_done || calibrated)
            &&& !calibrated ==> next.rayo_steps == state.rayo_steps
            &&& calibrated ==> match last_word(message) {
                None => next.rayo_steps == 10_000_000,
                Some(word) => match parsed_u64(word) {
                    None => next.rayo_steps == 10_000_000,
                    Some(steps) => next.rayo_steps == steps,
                },
            }
        }),
{
}

/// A failure is shown as it is reported, ends the work and clears the preview; nothing else changes.
pub proof fn law_failure(state: AppView, error: Seq<char>)
    ensures
        ({
            let next = after_failure(state, error);
            &&& next.status == error
            &&& next.status_tone == Tone::Failure
            &&& next.progress == Progress::Idle
            &&& next.preview.len() == 0
            &&& next.password == state.password
            &&& next.rayo_steps == state.rayo_steps
            &&& next.calibration_done == state.calibration_done
        }),
{
}

/// A new job leaves no password behind and shows that work goes on; nothing else changes.
pub proof fn law_start(state: AppView)
    ensures
        ({
            let next = after_start(state);
            &&& next.password.len() == 0
            &&& next.status == "⚡ Deriving key with Rayo machine..."@
            &&& next.status_tone == Tone::Working
            &&& next.progress == Progress::Running
            &&& next.preview == state.preview
            &&& next.rayo_steps == state.rayo_steps
            &&& next.calibration_done == state.calibration_done
        }),
{
}

/// The report of a measurement has the number in decimal, with a text before it and one behind.
pub proof fn law_calibration_text(steps: u64)
    ensures
        calibration_text(steps) == "Rayo calibrated: "@ + decimal(steps as nat) + " steps"@,
{
}

} // verus!
