use dicon_nifti_formatting::error::{ExportError, FormatFault};
use dicon_nifti_formatting::number::Real;
use dicon_nifti_formatting::run::{begin, output_written, AwaitingOptions, AwaitingVolume, Step};
use dicon_nifti_formatting::settings::{AcquisitionOptions, Geometry};
use dicon_nifti_formatting::volume::{SampleWidth, VolumeData, VolumeHeader};

fn args(words: &[&str]) -> Vec<String> {
    words.iter().map(|w| String::from(*w)).collect()
}

fn volume(declared: &[u64], extents: &[usize]) -> (VolumeHeader, VolumeData) {
    let count: usize = extents.iter().product();
    let cells: Vec<u64> = (0..count).map(|i| (i as f64).to_bits()).collect();
    let zero = Real::from_single_bits(0);
    (
        VolumeHeader {
            x_offset: zero,
            y_offset: zero,
            z_offset: zero,
            extents: declared.to_vec(),
            datatype: 64,
        },
        VolumeData::from_cells(extents.to_vec(), cells, SampleWidth::Double).unwrap(),
    )
}

fn started(words: &[&str]) -> AwaitingVolume {
    match begin(&args(words), Geometry::legacy()) {
        (Some(run), Step::ReadVolume { path }) => {
            assert_eq!(path, words[1]);
            run
        }
        other => panic!("unexpected {:?}", other.1),
    }
}

fn with_volume(words: &[&str]) -> AwaitingOptions {
    match started(words).volume_read(Ok(volume(&[1, 1, 1], &[1, 1, 1]))) {
        (Some(run), Step::LoadOptions { path }) => {
            assert_eq!(path, words[2]);
            run
        }
        other => panic!("unexpected {:?}", other.1),
    }
}

fn missing_file(path: &str) -> ExportError {
    ExportError::Config {
        path: String::from(path),
        field: None,
        detail: String::from("No such file or directory (os error 2)"),
    }
}

#[test]
fn short_command_line_prints_usage_and_fails() {
    match begin(&args(&["prog", "in.nii"]), Geometry::legacy()) {
        (
            None,
            Step::Finish {
                code,
                stdout,
                stderr,
            },
        ) => {
            assert_eq!(code, 1);
            assert_eq!(
                stdout,
                Some(String::from(
                    "Usage: prog INPUTFILE [OPTIONSFILE] OUTPUTFILE"
                ))
            );
            assert_eq!(
                stderr,
                Some(String::from("ERROR: Missing command line argument(s)"))
            );
        }
        other => panic!("unexpected {:?}", other.1),
    }
}

#[test]
fn missing_options_file_fails_before_any_output() {
    let run = with_volume(&["prog", "in.nii", "absent.json", "out.txt"]);
    match run.options_loaded(Err(missing_file("absent.json"))) {
        Step::Finish {
            code,
            stdout,
            stderr,
        } => {
            assert_eq!(code, 1);
            assert_eq!(stdout, None);
            let line = stderr.unwrap();
            assert!(line.contains("ERROR:"));
            assert_eq!(line, "ERROR: No such file or directory (os error 2)");
        }
        other => panic!("unexpected {other:?}"),
    }
}

#[test]
fn unreadable_volume_fails_before_options_are_asked_for() {
    let run = started(&["prog", "absent.nii", "options.json", "out.txt"]);
    let outcome = Err(ExportError::Io {
        path: String::from("absent.nii"),
        detail: String::from("I/O Error: No such file or directory (os error 2)"),
    });
    match run.volume_read(outcome) {
        (
            None,
            Step::Finish {
                code,
                stdout,
                stderr,
            },
        ) => {
            assert_eq!(code, 1);
            assert_eq!(stdout, None);
            assert_eq!(
                stderr,
                Some(String::from(
                    "ERROR: I/O Error: No such file or directory (os error 2)"
                ))
            );
        }
        other => panic!("unexpected {:?}", other.1),
    }
}

#[test]
fn two_paths_export_with_default_options() {
    let run = started(&["prog", "in.nii", "out.txt"]);
    match run.volume_read(Ok(volume(&[2, 1, 1], &[2, 1, 1]))) {
        (None, Step::WriteOutput { path, text }) => {
            assert_eq!(path, "out.txt");
            let lines: Vec<&str> = text.lines().collect();
            assert_eq!(lines[2], "Data file:          in.nii");
            assert_eq!(lines[4], "Correct 350 : 650 ms 8.0-14.0 Hz MSBF (TF) q%");
            assert_eq!(lines[7], "X: 0.000000 70.000000 2");
            assert_eq!(lines[12], "0.0000000000 1.0000000000");
        }
        other => panic!("unexpected {:?}", other.1),
    }
}

#[test]
fn three_paths_export_with_loaded_options() {
    let run = with_volume(&["prog", "in.nii", "options.json", "out.txt"]);
    let options = AcquisitionOptions {
        correct: 1,
        window_ms: 500,
        lower_hz: Real::from_single_bits(4.0f32.to_bits()),
        upper_hz: Real::from_single_bits(30.0f32.to_bits()),
    };
    match run.options_loaded(Ok(options)) {
        Step::WriteOutput { path, text } => {
            assert_eq!(path, "out.txt");
            assert_eq!(
                text.lines().nth(4),
                Some("Correct 1 : 500 ms 4.0-30.0 Hz MSBF (TF) q%")
            );
        }
        other => panic!("unexpected {other:?}"),
    }
}

#[test]
fn disagreeing_volume_fails_without_output() {
    let run = started(&["prog", "in.nii", "out.txt"]);
    match run.volume_read(Ok(volume(&[2, 2, 3], &[2, 2, 2]))) {
        (
            None,
            Step::Finish {
                code,
                stdout,
                stderr,
            },
        ) => {
            assert_eq!(code, 1);
            assert_eq!(stdout, None);
            assert_eq!(
                stderr,
                Some(String::from(
                    "ERROR: header declares extent 3 on axis 2, data holds 2"
                ))
            );
        }
        other => panic!("unexpected {:?}", other.1),
    }
}

#[test]
fn written_output_ends_the_run_with_success() {
    match output_written(Ok(())) {
        Step::Finish {
            code,
            stdout,
            stderr,
        } => {
            assert_eq!(code, 0);
            assert_eq!(stdout, None);
            assert_eq!(stderr, None);
        }
        other => panic!("unexpected {other:?}"),
    }
}

#[test]
fn failed_write_ends_the_run_with_its_report() {
    let outcome = Err(ExportError::Io {
        path: String::from("out.txt"),
        detail: String::from("disk full"),
    });
    match output_written(outcome) {
        Step::Finish { code, stderr, .. } => {
            assert_eq!(code, 1);
            assert_eq!(stderr, Some(String::from("ERROR: disk full")));
        }
        other => panic!("unexpected {other:?}"),
    }
}

#[test]
fn unconvertible_samples_end_the_run_with_their_report() {
    let run = started(&["prog", "rgb.nii", "out.txt"]);
    let outcome = Err(ExportError::Conversion {
        path: String::from("rgb.nii"),
        datatype: 128,
        width: SampleWidth::Double,
        detail: String::from("Unsupported data type"),
    });
    match run.volume_read(outcome) {
        (None, Step::Finish { code, stderr, .. }) => {
            assert_eq!(code, 1);
            assert_eq!(stderr, Some(String::from("ERROR: Unsupported data type")));
        }
        other => panic!("unexpected {:?}", other.1),
    }
}

#[test]
fn malformed_volume_ends_the_run_with_its_report() {
    let run = started(&["prog", "bad.nii", "out.txt"]);
    let outcome = Err(ExportError::Format {
        path: String::from("bad.nii"),
        fault: FormatFault::Malformed {
            detail: String::from("Invalid NIfTI-1 file"),
        },
    });
    match run.volume_read(outcome) {
        (None, Step::Finish { code, stderr, .. }) => {
            assert_eq!(code, 1);
            assert_eq!(stderr, Some(String::from("ERROR: Invalid NIfTI-1 file")));
        }
        other => panic!("unexpected {:?}", other.1),
    }
}
