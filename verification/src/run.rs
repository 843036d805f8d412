//! One run of the program as a sequence of decisions.  The caller does the
//! reading and writing that a step asks for and reports back how it went;
//! the run decides what comes next.

use crate::cli::{
    invocation_of, missing_arguments_line, missing_arguments_text, usage_line, usage_text,
    Invocation,
};
use crate::error::{ExportError, EXIT_FAILURE, EXIT_SUCCESS};
use crate::export::{structural_fault, GridExporter};
use crate::layout::export_text;
use crate::settings::{default_options, AcquisitionOptions, Geometry};
use crate::volume::{VolumeData, VolumeHeader};
use vstd::prelude::*;

verus! {

/// What the caller is to do next.
#[derive(Debug)]
pub enum Step {
    /// Read the volume at `path` and report with `volume_read`.
    ReadVolume { path: String },
    /// Load the options file at `path` and report with `options_loaded`.
    LoadOptions { path: String },
    /// Create the file at `path`, write `text` to it and report with
    /// `output_written`.
    WriteOutput { path: String, text: String },
    /// Print what is given to standard output and to standard error, and
    /// exit with `code`.
    Finish { code: i32, stdout: Option<String>, stderr: Option<String> },
}

/// A step with its texts as sequences of characters.
pub enum StepModel {
    ReadVolume { path: Seq<char> },
    LoadOptions { path: Seq<char> },
    WriteOutput { path: Seq<char>, text: Seq<char> },
    Finish { code: int, stdout: Option<Seq<char>>, stderr: Option<Seq<char>> },
}

/// The text of an optional line.
pub open spec fn line_model(line: Option<String>) -> Option<Seq<char>> {
    match line {
        Some(text) => Some(text@),
        None => None,
    }
}

impl Step {
    /// The step with its texts as sequences of characters.
    pub open spec fn model(self) -> StepModel {
        match self {
            Step::ReadVolume { path } => StepModel::ReadVolume { path: path@ },
            Step::LoadOptions { path } => StepModel::LoadOptions { path: path@ },
            Step::WriteOutput { path, text } => StepModel::WriteOutput {
                path: path@,
                text: text@,
            },
            Step::Finish { code, stdout, stderr } => StepModel::Finish {
                code: code as int,
                stdout: line_model(stdout),
                stderr: line_model(stderr),
            },
        }
    }
}

/// The end of a run that failed: the report of the error on standard error,
/// nothing on standard output, and the exit code of failure.
pub open spec fn failure(error: ExportError) -> StepModel {
    StepModel::Finish { code: 1, stdout: None, stderr: Some(error.report_text()) }
}

/// The end of a run whose command line is too short: the usage line on
/// standard output, the complaint on standard error, and the exit code of
/// failure.
pub open spec fn usage_failure(args: Seq<String>) -> StepModel {
    StepModel::Finish {
        code: 1,
        stdout: Some(usage_text(args)),
        stderr: Some(missing_arguments_text()),
    }
}

/// The end of a run that wrote its output.
pub open spec fn success() -> StepModel {
    StepModel::Finish { code: 0, stdout: None, stderr: None }
}

/// The step that follows once volume and options are at hand: to write the
/// export, or to fail on a volume whose header and samples disagree.
pub open spec fn export_step(
    exporter: GridExporter,
    header: VolumeHeader,
    volume: VolumeData,
    input: Seq<char>,
    output: Seq<char>,
) -> StepModel {
    match structural_fault(header.extents@, volume.extents()) {
        None => StepModel::WriteOutput {
            path: output,
            text: export_text(input, exporter.options, header, exporter.geometry, volume),
        },
        Some(fault) => StepModel::Finish {
            code: 1,
            stdout: None,
            stderr: Some("ERROR: "@ + fault.message_text()),
        },
    }
}

/// A run that waits for its volume.
pub struct AwaitingVolume {
    pub invocation: Invocation,
    pub geometry: Geometry,
}

/// A run that has its volume and waits for its options.
pub struct AwaitingOptions {
    pub invocation: Invocation,
    pub geometry: Geometry,
    pub header: VolumeHeader,
    pub volume: VolumeData,
}

/// The end of a run that failed.
fn fail(error: &ExportError) -> (step: Step)
    ensures
        step.model() == failure(*error),
{
    Step::Finish { code: error.exit_code(), stdout: None, stderr: Some(error.report()) }
}

/// Renders the export and asks for it to be written, or fails.
fn export_now(
    exporter: &GridExporter,
    header: &VolumeHeader,
    volume: &VolumeData,
    invocation: &Invocation,
) -> (step: Step)
    ensures
        step.model() == export_step(
            *exporter,
            *header,
            *volume,
            invocation.input_path@,
            invocation.output_path@,
        ),
{
    match exporter.export(header, volume, invocation.input_path.as_str()) {
        Ok(text) => Step::WriteOutput { path: invocation.output_path.clone(), text },
        Err(error) => {
            let step = fail(&error);
step
        },
    }
}

/// Starts a run from its command line.  A command line that is too short
/// ends the run at once; any other asks for the volume first.
pub fn begin(args: &Vec<String>, geometry: Geometry) -> (r: (Option<AwaitingVolume>, Step))
    ensures
        match invocation_of(args@) {
            None => r.0 is None && r.1.model() == usage_failure(args@),
            Some(paths) => {
                &&& r.0 matches Some(run)
                &&& run.invocation.paths() == paths
                &&& run.geometry == geometry
                &&& r.1.model() == StepModel::ReadVolume { path: paths.0 }
            },
        },
{
    match Invocation::parse(args) {
        None => (
            None,
            Step::Finish {
                code: EXIT_FAILURE,
                stdout: Some(usage_line(args)),
                stderr: Some(missing_arguments_line()),
            },
        ),
        Some(invocation) => {
            let path = invocation.input_path.clone();
            (Some(AwaitingVolume { invocation, geometry }), Step::ReadVolume { path })
        },
    }
}

impl AwaitingVolume {
    /// Takes the outcome of reading the volume.  A failure ends the run.
    /// With an options file named, the run asks for it next; without one it
    /// exports with the default options.
    pub fn volume_read(self, outcome: Result<(VolumeHeader, VolumeData), ExportError>) -> (r: (
        Option<AwaitingOptions>,
        Step,
    ))
        ensures
            match outcome {
                Err(error) => r.0 is None && r.1.model() == failure(error),
                Ok((header, volume)) => match self.invocation.options_path {
                    Some(path) => {
                        &&& r.0 matches Some(run)
                        &&& run.invocation == self.invocation
                        &&& run.geometry == self.geometry
                        &&& run.header == header
                        &&& run.volume == volume
                        &&& r.1.model() == StepModel::LoadOptions { path: path@ }
                    },
                    None => {
                        &&& r.0 is None
                        &&& r.1.model() == export_step(
                            GridExporter { options: default_options(), geometry: self.geometry },
                            header,
                            volume,
                            self.invocation.input_path@,
                            self.invocation.output_path@,
                        )
                    },
                },
            },
    {
        match outcome {
            Err(error) => (None, fail(&error)),
            Ok((header, volume)) => {
                let wanted: Option<String> = match &self.invocation.options_path {
                    Some(path) => Some(path.clone()),
                    None => None,
                };
                match wanted {
                    Some(path) => (
                        Some(
                            AwaitingOptions {
                                invocation: self.invocation,
                                geometry: self.geometry,
                                header,
                                volume,
                            },
                        ),
                        Step::LoadOptions { path },
                    ),
                    None => {
                        let exporter = GridExporter::new(
                            AcquisitionOptions::default(),
                            self.geometry,
                        );
                        (None, export_now(&exporter, &header, &volume, &self.invocation))
                    },
                }
            },
        }
    }
}

impl AwaitingOptions {
    /// Takes the outcome of loading the options.  A failure ends the run
    /// before any output is asked for; else the run exports with the
    /// options loaded.
    pub fn options_loaded(self, outcome: Result<AcquisitionOptions, ExportError>) -> (step: Step)
        ensures
            match outcome {
                Err(error) => step.model() == failure(error),
                Ok(options) => step.model() == export_step(
                    GridExporter { options, geometry: self.geometry },
                    self.header,
                    self.volume,
                    self.invocation.input_path@,
                    self.invocation.output_path@,
                ),
            },
    {
        match outcome {
            Err(error) => fail(&error),
            Ok(options) => {
                let exporter = GridExporter::new(options, self.geometry);
                export_now(&exporter, &self.header, &self.volume, &self.invocation)
            },
        }
    }
}

/// Takes the outcome of writing the output, which ends the run either way.
pub fn output_written(outcome: Result<(), ExportError>) -> (step: Step)
    ensures
        match outcome {
            Err(error) => step.model() == failure(error),
            Ok(_) => step.model() == success(),
        },
{
    match outcome {
        Err(error) => fail(&error),
        Ok(_) => Step::Finish { code: EXIT_SUCCESS, stdout: None, stderr: None },
    }
}

/// A failed run ends with exit code 1 and a line on standard error that
/// begins with `ERROR: `.
pub proof fn lemma_failure_is_reported(error: ExportError)
    ensures
        ({
            &&& failure(error) matches StepModel::Finish { code, stdout, stderr }
            &&& code == 1
            &&& stdout is None
            &&& stderr matches Some(line)
            &&& line.len() >= 7
            &&& line.subrange(0, 7) == "ERROR: "@
        }),
{
    reveal_strlit("ERROR: ");
    let line = error.report_text();
    assert(line.subrange(0, 7) =~= "ERROR: "@);
}

} // verus!
