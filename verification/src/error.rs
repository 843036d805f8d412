//! What can go wrong between the input volume and the finished text.

use crate::digits::decimal;
use crate::text::push_decimal;
use crate::volume::SampleWidth;
use vstd::prelude::*;
use vstd::string::StringExecFns;

verus! {

/// The ways in which an input volume can be structurally wrong.
#[derive(Debug)]
pub enum FormatFault {
    /// The reader could not make sense of the file.
    Malformed { detail: String },
    /// The extents are too large for a grid to be addressed.
    Oversized,
    /// The number of samples is not the product of the extents.
    CellCount { expected: usize, found: usize },
    /// The sample grid has no depth axis.
    TooFewAxes { found: usize },
    /// Header and sample grid disagree on the number of axes.
    AxisCount { declared_axes: usize, realized_axes: usize },
    /// Header and sample grid disagree on the extent of one axis.
    Extent { axis: usize, declared: u64, realized: usize },
}

/// A failed export, tagged by kind and carrying the path it concerns.
#[derive(Debug)]
pub enum ExportError {
    /// A file could not be opened, read or written.
    Io { path: String, detail: String },
    /// The input volume is structurally wrong.
    Format { path: String, fault: FormatFault },
    /// The volume's sample datatype has no conversion to the asked width.
    Conversion { path: String, datatype: i16, width: SampleWidth, detail: String },
    /// The options file is missing or malformed, or lacks a field.
    Config { path: String, field: Option<String>, detail: String },
}

/// The exit code of a run that exported its volume.
pub const EXIT_SUCCESS: i32 = 0;

/// The exit code of a run that failed, whatever the failure.
pub const EXIT_FAILURE: i32 = 1;

impl FormatFault {
    /// The message of the fault.
    pub open spec fn message_text(self) -> Seq<char> {
        match self {
            FormatFault::Malformed { detail } => detail@,
            FormatFault::Oversized => "grid extents exceed the addressable size"@,
            FormatFault::CellCount { expected, found } => "grid of "@ + decimal(expected as nat)
                + " cells was given "@ + decimal(found as nat) + " samples"@,
            FormatFault::TooFewAxes { found } => "volume has "@ + decimal(found as nat)
                + " axes, at least 3 are needed"@,
            FormatFault::AxisCount { declared_axes, realized_axes } => "header declares "@
                + decimal(declared_axes as nat) + " axes, data holds "@ + decimal(
                realized_axes as nat,
            ),
            FormatFault::Extent { axis, declared, realized } => "header declares extent "@
                + decimal(declared as nat) + " on axis "@ + decimal(axis as nat)
                + ", data holds "@ + decimal(realized as nat),
        }
    }

    /// Appends the message of the fault.
    pub fn push_message(&self, out: &mut String)
        ensures
            final(out)@ == old(out)@ + self.message_text(),
    {
        match self {
            FormatFault::Malformed { detail } => {
                out.append(detail.as_str());
            },
            FormatFault::Oversized => {
                out.append("grid extents exceed the addressable size");
            },
            FormatFault::CellCount { expected, found } => {
                out.append("grid of ");
                push_decimal(out, *expected as u128);
                out.append(" cells was given ");
                push_decimal(out, *found as u128);
                out.append(" samples");
            },
            FormatFault::TooFewAxes { found } => {
                out.append("volume has ");
                push_decimal(out, *found as u128);
                out.append(" axes, at least 3 are needed");
            },
            FormatFault::AxisCount { declared_axes, realized_axes } => {
                out.append("header declares ");
                push_decimal(out, *declared_axes as u128);
                out.append(" axes, data holds ");
                push_decimal(out, *realized_axes as u128);
            },
            FormatFault::Extent { axis, declared, realized } => {
                out.append("header declares extent ");
                push_decimal(out, *declared as u128);
                out.append(" on axis ");
                push_decimal(out, *axis as u128);
                out.append(", data holds ");
                push_decimal(out, *realized as u128);
            },
        }
        proof {
            assert(out@ =~= old(out)@ + self.message_text());
        }
    }
}

impl ExportError {
    /// The message of the error, without its prefix.
    pub open spec fn message_text(self) -> Seq<char> {
        match self {
            ExportError::Io { path, detail } => detail@,
            ExportError::Format { path, fault } => fault.message_text(),
            ExportError::Conversion { path, datatype, width, detail } => detail@,
            ExportError::Config { path, field, detail } => detail@,
        }
    }

    /// The one line by which a failed run reports the error.
    pub open spec fn report_text(self) -> Seq<char> {
        "ERROR: "@ + self.message_text()
    }

    /// The path of the file that the error concerns.
    pub open spec fn path_text(self) -> Seq<char> {
        match self {
            ExportError::Io { path, detail } => path@,
            ExportError::Format { path, fault } => path@,
            ExportError::Conversion { path, datatype, width, detail } => path@,
            ExportError::Config { path, field, detail } => path@,
        }
    }

    /// Appends the message of the error.
    pub fn push_message(&self, out: &mut String)
        ensures
            final(out)@ == old(out)@ + self.message_text(),
    {
        match self {
            ExportError::Io { path, detail } => {
                out.append(detail.as_str());
            },
            ExportError::Format { path, fault } => {
                fault.push_message(out);
            },
            ExportError::Conversion { path, datatype, width, detail } => {
                out.append(detail.as_str());
            },
            ExportError::Config { path, field, detail } => {
                out.append(detail.as_str());
            },
        }
    }

    /// The message of the error, without its prefix.
    pub fn message(&self) -> (text: String)
        ensures
            text@ == self.message_text(),
    {
        let mut out: String = String::new();
        self.push_message(&mut out);
        proof {
            assert(Seq::<char>::empty() + self.message_text() =~= self.message_text());
        }
        out
    }

    /// The one line by which a failed run reports the error: `ERROR: `, then
    /// the message.
    pub fn report(&self) -> (text: String)
        ensures
            text@ == self.report_text(),
    {
        let mut out: String = String::from_str("ERROR: ");
        self.push_message(&mut out);
        out
    }

    /// The path of the file that the error concerns.
    pub fn path(&self) -> (text: &str)
        ensures
            text@ == self.path_text(),
    {
        match self {
            ExportError::Io { path, detail } => path.as_str(),
            ExportError::Format { path, fault } => path.as_str(),
            ExportError::Conversion { path, datatype, width, detail } => path.as_str(),
            ExportError::Config { path, field, detail } => path.as_str(),
        }
    }

    /// The exit code of a run that ended in this error.
    pub fn exit_code(&self) -> (code: i32)
        ensures
            code == EXIT_FAILURE,
    {
        EXIT_FAILURE
    }
}

} // verus!
