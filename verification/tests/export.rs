use dicon_nifti_formatting::error::{ExportError, FormatFault};
use dicon_nifti_formatting::export::{check_structure, GridExporter};
use dicon_nifti_formatting::number::Real;
use dicon_nifti_formatting::settings::{AcquisitionOptions, Geometry};
use dicon_nifti_formatting::volume::{SampleWidth, VolumeData, VolumeHeader};
use ndarray::{ArrayD, Axis, IxDyn, ShapeBuilder};

const SEPARATOR: &str =
    "==============================================================================================";

fn real32(x: f32) -> Real {
    Real::from_single_bits(x.to_bits())
}

fn options(correct: i32, ms: i32, lower: f32, upper: f32) -> AcquisitionOptions {
    AcquisitionOptions {
        correct,
        window_ms: ms,
        lower_hz: real32(lower),
        upper_hz: real32(upper),
    }
}

fn header(offsets: [f32; 3], extents: &[usize]) -> VolumeHeader {
    VolumeHeader {
        x_offset: real32(offsets[0]),
        y_offset: real32(offsets[1]),
        z_offset: real32(offsets[2]),
        extents: extents.iter().map(|&e| e as u64).collect(),
        datatype: 64,
    }
}

fn volume64(extents: &[usize], samples: &[f64]) -> VolumeData {
    let cells: Vec<u64> = samples.iter().map(|x| x.to_bits()).collect();
    VolumeData::from_cells(extents.to_vec(), cells, SampleWidth::Double).unwrap()
}

fn volume32(extents: &[usize], samples: &[f32]) -> VolumeData {
    let cells: Vec<u64> = samples.iter().map(|x| u64::from(x.to_bits())).collect();
    VolumeData::from_cells(extents.to_vec(), cells, SampleWidth::Single).unwrap()
}

fn ramp(count: usize) -> Vec<f64> {
    (0..count)
        .map(|i| (i as f64) * 1.25 - 3.0 + 1.0 / ((i + 3) as f64))
        .collect()
}

/// The text as the array library's own iterators lay it out.
fn reference(
    path: &str,
    correct: i32,
    ms: i32,
    lower: f32,
    upper: f32,
    offsets: [f32; 3],
    extents: &[usize],
    samples: &[f64],
) -> String {
    let slices = ArrayD::from_shape_vec(IxDyn(extents).f(), samples.to_vec()).unwrap();
    let mut out = format!(
        "BESA_SA_IMAGE:2.0

Data file:          {path}
Condition:          Correct  Notch filter: 60 Hz
Correct {correct} : {ms} ms {lower:.1}-{upper:.1} Hz MSBF (TF) q%

Grid dimensions ([min] [max] [nr of locations]):
X: {x_min:.6} 70.000000 {x_dim}
Y: {y_min:.6} 71.629997 {y_dim}
Z: {z_min:.6} 77.379997 {z_dim}
",
        x_min = offsets[0],
        y_min = offsets[1],
        z_min = offsets[2],
        x_dim = extents[0],
        y_dim = extents[1],
        z_dim = extents[2],
    );
    out.push_str(SEPARATOR);
    for (z_index, slice) in slices.axis_iter(Axis(2)).enumerate() {
        out.push('\n');
        out.push_str(&format!("Z: {}\n", z_index));
        for column in slice.columns() {
            if let Some(first) = column.first() {
                out.push_str(&format!("{:.10}", first));
            }
            for sample in column.iter().skip(1) {
                out.push_str(&format!(" {:.10}", sample));
            }
            out.push('\n');
        }
    }
    out
}

fn exported(extents: &[usize], samples: &[f64]) -> String {
    GridExporter::new(options(7, 250, 2.5, 45.25), Geometry::legacy())
        .export(
            &header([-70.0, -102.5, -42.125], extents),
            &volume64(extents, samples),
            "scan.nii",
        )
        .unwrap()
}

fn expected(extents: &[usize], samples: &[f64]) -> String {
    reference(
        "scan.nii",
        7,
        250,
        2.5,
        45.25,
        [-70.0, -102.5, -42.125],
        extents,
        samples,
    )
}

#[test]
fn smallest_volume_is_laid_out_exactly() {
    let text = GridExporter::new(options(1, 500, 4.0, 30.0), Geometry::legacy())
        .export(
            &header([-70.0, -102.0, -42.0], &[2, 1, 2]),
            &volume64(&[2, 1, 2], &[1.0, -2.5, 0.125, 1e-11]),
            "a.nii",
        )
        .unwrap();
    let wanted = format!(
        "BESA_SA_IMAGE:2.0\n\nData file:          a.nii\nCondition:          Correct  Notch filter: 60 Hz\nCorrect 1 : 500 ms 4.0-30.0 Hz MSBF (TF) q%\n\nGrid dimensions ([min] [max] [nr of locations]):\nX: -70.000000 70.000000 2\nY: -102.000000 71.629997 1\nZ: -42.000000 77.379997 2\n{SEPARATOR}\nZ: 0\n1.0000000000 -2.5000000000\n\nZ: 1\n0.1250000000 0.0000000000\n"
    );
    assert_eq!(text, wanted);
}

#[test]
fn three_axes_follow_the_array_iterators() {
    let extents = [3, 4, 2];
    let samples = ramp(24);
    assert_eq!(exported(&extents, &samples), expected(&extents, &samples));
}

#[test]
fn rows_run_along_the_first_axis() {
    let text = exported(&[2, 2, 1], &[1.0, 2.0, 3.0, 4.0]);
    assert!(text.ends_with("Z: 0\n1.0000000000 2.0000000000\n3.0000000000 4.0000000000\n"));
}

#[test]
fn further_axes_follow_the_array_iterators() {
    let extents = [2, 3, 2, 2];
    let samples = ramp(24);
    assert_eq!(exported(&extents, &samples), expected(&extents, &samples));
    let extents = [2, 2, 3, 2, 2];
    let samples = ramp(48);
    assert_eq!(exported(&extents, &samples), expected(&extents, &samples));
}

#[test]
fn further_axes_vary_fastest_at_the_end() {
    let text = exported(&[1, 2, 1, 2], &[1.0, 2.0, 3.0, 4.0]);
    assert!(text.ends_with("Z: 0\n1.0000000000\n3.0000000000\n2.0000000000\n4.0000000000\n"));
}

#[test]
fn volume_without_slices_ends_at_the_separator() {
    let text = exported(&[2, 2, 0], &[]);
    assert_eq!(text, expected(&[2, 2, 0], &[]));
    assert!(text.ends_with(SEPARATOR));
}

#[test]
fn empty_axes_give_empty_rows_or_none() {
    assert_eq!(exported(&[0, 2, 2], &[]), expected(&[0, 2, 2], &[]));
    assert!(exported(&[0, 2, 2], &[]).ends_with("\nZ: 0\n\n\n\nZ: 1\n\n\n"));
    assert_eq!(exported(&[2, 0, 2], &[]), expected(&[2, 0, 2], &[]));
    assert!(exported(&[2, 0, 2], &[]).ends_with("\nZ: 0\n\nZ: 1\n"));
}

#[test]
fn one_marker_per_slice_in_ascending_order() {
    let depth = 12;
    let text = exported(&[2, 3, depth], &ramp(2 * 3 * depth));
    let markers: Vec<&str> = text
        .lines()
        .filter(|line| {
            line.strip_prefix("Z: ")
                .is_some_and(|rest| !rest.is_empty() && rest.bytes().all(|b| b.is_ascii_digit()))
        })
        .collect();
    let wanted: Vec<String> = (0..depth).map(|z| format!("Z: {z}")).collect();
    assert_eq!(markers, wanted);
}

#[test]
fn separator_occurs_once() {
    let text = exported(&[2, 3, 4], &ramp(24));
    let found: Vec<&str> = text.lines().filter(|line| *line == SEPARATOR).collect();
    assert_eq!(found.len(), 1);
    assert_eq!(SEPARATOR.len(), 94);
    assert!(SEPARATOR.bytes().all(|b| b == b'='));
    assert_eq!(text.lines().nth(10), Some(SEPARATOR));
}

#[test]
fn rows_hold_one_token_per_sample_within_rounding() {
    let extents = [5, 3, 2];
    let samples = ramp(30);
    let text = exported(&extents, &samples);
    let rows: Vec<&str> = text
        .lines()
        .skip(11)
        .filter(|line| !line.is_empty() && !line.starts_with("Z: "))
        .collect();
    assert_eq!(rows.len(), 3 * 2);
    for (r, row) in rows.iter().enumerate() {
        let tokens: Vec<&str> = row.split(' ').collect();
        assert_eq!(tokens.len(), 5);
        for (x, token) in tokens.iter().enumerate() {
            let (z, y) = (r / 3, r % 3);
            let sample = samples[x + 5 * (y + 3 * z)];
            let read: f64 = token.parse().unwrap();
            assert!((read - sample).abs() <= 5e-11);
            assert_eq!(token.split('.').nth(1).unwrap().len(), 10);
        }
    }
}

#[test]
fn both_sample_widths_give_the_same_text() {
    let extents = [3, 2, 2];
    let singles: Vec<f32> = (0..12).map(|i| (i as f32) * 0.3 - 1.7).collect();
    let doubles: Vec<f64> = singles.iter().map(|&x| f64::from(x)).collect();
    let exporter = GridExporter::new(AcquisitionOptions::default(), Geometry::legacy());
    let head = header([1.0, 2.0, 3.0], &extents);
    let narrow = exporter
        .export(&head, &volume32(&extents, &singles), "v.nii")
        .unwrap();
    let wide = exporter
        .export(&head, &volume64(&extents, &doubles), "v.nii")
        .unwrap();
    assert_eq!(narrow, wide);
}

#[test]
fn path_is_embedded_verbatim() {
    let text = GridExporter::new(AcquisitionOptions::default(), Geometry::legacy())
        .export(
            &header([0.0, 0.0, 0.0], &[1, 1, 1]),
            &volume64(&[1, 1, 1], &[0.0]),
            "C:\\données\\sujet 1\\vol.nii.gz",
        )
        .unwrap();
    assert_eq!(
        text.lines().nth(2),
        Some("Data file:          C:\\données\\sujet 1\\vol.nii.gz")
    );
}

#[test]
fn condition_line_of_given_options() {
    let line = options(1, 500, 4.0, 30.0).condition_line();
    assert_eq!(line, "Correct 1 : 500 ms 4.0-30.0 Hz MSBF (TF) q%");
    let text = GridExporter::new(options(1, 500, 4.0, 30.0), Geometry::legacy())
        .export(
            &header([0.0, 0.0, 0.0], &[1, 1, 1]),
            &volume64(&[1, 1, 1], &[0.0]),
            "a.nii",
        )
        .unwrap();
    assert_eq!(
        text.lines().nth(4),
        Some("Correct 1 : 500 ms 4.0-30.0 Hz MSBF (TF) q%")
    );
}

#[test]
fn condition_line_of_default_options() {
    let defaults = AcquisitionOptions::default();
    assert_eq!(defaults.correct, 350);
    assert_eq!(defaults.window_ms, 650);
    assert_eq!(defaults.lower_hz, real32(8.0));
    assert_eq!(defaults.upper_hz, real32(14.0));
    assert_eq!(
        defaults.condition_line(),
        "Correct 350 : 650 ms 8.0-14.0 Hz MSBF (TF) q%"
    );
}

#[test]
fn condition_line_of_negative_codes() {
    let line = options(i32::MIN, -1, -0.25, 1e9).condition_line();
    assert_eq!(
        line,
        "Correct -2147483648 : -1 ms -0.2-1000000000.0 Hz MSBF (TF) q%"
    );
}

#[test]
fn legacy_geometry_prints_the_compatibility_constants() {
    let geometry = Geometry::legacy();
    assert_eq!(geometry.x_max.to_fixed(6), "70.000000");
    assert_eq!(geometry.y_max.to_fixed(6), "71.629997");
    assert_eq!(geometry.z_max.to_fixed(6), "77.379997");
}

#[test]
fn other_geometry_is_printed_as_given() {
    let geometry = Geometry {
        x_max: real32(10.5),
        y_max: real32(-1.0),
        z_max: real32(0.0),
    };
    let text = GridExporter::new(AcquisitionOptions::default(), geometry)
        .export(
            &header([0.5, 0.0, -3.0], &[1, 1, 1]),
            &volume64(&[1, 1, 1], &[0.0]),
            "a.nii",
        )
        .unwrap();
    let lines: Vec<&str> = text.lines().collect();
    assert_eq!(lines[7], "X: 0.500000 10.500000 1");
    assert_eq!(lines[8], "Y: 0.000000 -1.000000 1");
    assert_eq!(lines[9], "Z: -3.000000 0.000000 1");
}

#[test]
fn differing_extent_is_a_format_error() {
    let result = GridExporter::new(AcquisitionOptions::default(), Geometry::legacy()).export(
        &header([0.0, 0.0, 0.0], &[2, 3, 2]),
        &volume64(&[2, 2, 2], &ramp(8)),
        "bad.nii",
    );
    match result {
        Err(ExportError::Format { path, fault }) => {
            assert_eq!(path, "bad.nii");
            assert!(matches!(
                fault,
                FormatFault::Extent {
                    axis: 1,
                    declared: 3,
                    realized: 2
                }
            ));
        }
        other => panic!("unexpected {other:?}"),
    }
}

#[test]
fn first_differing_extent_is_reported() {
    let fault = check_structure(&vec![2, 9, 9, 2], &vec![2, 3, 4, 2]).unwrap_err();
    assert!(matches!(
        fault,
        FormatFault::Extent {
            axis: 1,
            declared: 9,
            realized: 3
        }
    ));
    assert!(check_structure(&vec![2, 3, 4, 2], &vec![2, 3, 4, 2]).is_ok());
}

#[test]
fn missing_depth_axis_is_a_format_error() {
    let result = GridExporter::new(AcquisitionOptions::default(), Geometry::legacy()).export(
        &header([0.0, 0.0, 0.0], &[2, 2]),
        &volume64(&[2, 2], &ramp(4)),
        "flat.nii",
    );
    match result {
        Err(error) => {
            assert!(matches!(
                error,
                ExportError::Format {
                    fault: FormatFault::TooFewAxes { found: 2 },
                    ..
                }
            ));
            assert_eq!(error.report(), "ERROR: volume has 2 axes, at least 3 are needed");
            assert_eq!(error.path(), "flat.nii");
        }
        Ok(_) => panic!("exported a volume without depth"),
    }
}

#[test]
fn differing_axis_count_is_a_format_error() {
    let fault = check_structure(&vec![2, 2, 2, 1], &vec![2, 2, 2]).unwrap_err();
    assert!(matches!(
        fault,
        FormatFault::AxisCount {
            declared_axes: 4,
            realized_axes: 3
        }
    ));
}
