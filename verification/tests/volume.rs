use dicon_nifti_formatting::cli::{missing_arguments_line, usage_line, Invocation};
use dicon_nifti_formatting::error::{ExportError, FormatFault, EXIT_FAILURE, EXIT_SUCCESS};
use dicon_nifti_formatting::number::Real;
use dicon_nifti_formatting::volume::{decode_sample, SampleWidth, VolumeData};

#[test]
fn cells_are_listed_first_axis_fastest() {
    let cells: Vec<u64> = (0..24).map(|i| 1000 + i).collect();
    let volume = VolumeData::from_cells(vec![2, 3, 4], cells, SampleWidth::Double).unwrap();
    assert_eq!(volume.shape(), vec![2, 3, 4]);
    for z in 0..4usize {
        for y in 0..3usize {
            for x in 0..2usize {
                let bits = 1000 + (x + 2 * (y + 3 * z)) as u64;
                assert_eq!(
                    volume.sample(&vec![x, y, z]),
                    Some(Real::from_double_bits(bits))
                );
            }
        }
    }
}

#[test]
fn sample_outside_the_grid_is_none() {
    let volume =
        VolumeData::from_cells(vec![2, 3, 4], vec![0; 24], SampleWidth::Double).unwrap();
    assert_eq!(volume.sample(&vec![2, 0, 0]), None);
    assert_eq!(volume.sample(&vec![0, 3, 0]), None);
    assert_eq!(volume.sample(&vec![0, 0, 4]), None);
    assert_eq!(volume.sample(&vec![0, 0]), None);
    assert_eq!(volume.sample(&vec![0, 0, 0, 0]), None);
    assert!(volume.sample(&vec![1, 2, 3]).is_some());
}

#[test]
fn sample_is_decoded_at_the_width_of_the_volume() {
    let single = 1.5f32.to_bits();
    let volume =
        VolumeData::from_cells(vec![1, 1, 1], vec![u64::from(single)], SampleWidth::Single)
            .unwrap();
    let value = volume.sample(&vec![0, 0, 0]).unwrap();
    assert_eq!(value, Real::from_single_bits(single));
    assert_eq!(value.to_fixed(10), "1.5000000000");
    let double = (-0.75f64).to_bits();
    let volume =
        VolumeData::from_cells(vec![1, 1, 1], vec![double], SampleWidth::Double).unwrap();
    assert_eq!(
        volume.sample(&vec![0, 0, 0]).unwrap().to_fixed(10),
        "-0.7500000000"
    );
}

#[test]
fn single_width_reads_the_low_half_of_a_cell() {
    let bits = 0xdead_beef_0000_0000u64 | u64::from(2.0f32.to_bits());
    assert_eq!(
        decode_sample(SampleWidth::Single, bits),
        Real::from_single_bits(2.0f32.to_bits())
    );
}

#[test]
fn wrong_cell_count_is_a_fault() {
    let fault = VolumeData::from_cells(vec![2, 3, 4], vec![0; 23], SampleWidth::Double)
        .err()
        .unwrap();
    assert!(matches!(
        fault,
        FormatFault::CellCount {
            expected: 24,
            found: 23
        }
    ));
    let fault = VolumeData::from_cells(vec![2, 0, 4], vec![0; 8], SampleWidth::Double)
        .err()
        .unwrap();
    assert!(matches!(
        fault,
        FormatFault::CellCount {
            expected: 0,
            found: 8
        }
    ));
}

#[test]
fn extents_beyond_addressing_are_a_fault() {
    let fault = VolumeData::from_cells(vec![usize::MAX, 2, 0], vec![], SampleWidth::Double)
        .err()
        .unwrap();
    assert!(matches!(fault, FormatFault::Oversized));
    let fault = VolumeData::from_cells(
        vec![1 << (usize::BITS / 2), 1 << (usize::BITS / 2), 1],
        vec![],
        SampleWidth::Double,
    )
    .err()
    .unwrap();
    assert!(matches!(fault, FormatFault::Oversized));
}

#[test]
fn grid_without_axes_has_one_cell() {
    let volume = VolumeData::from_cells(vec![], vec![7], SampleWidth::Double).unwrap();
    assert_eq!(volume.shape(), Vec::<usize>::new());
    assert_eq!(volume.sample(&vec![]), Some(Real::from_double_bits(7)));
}

#[test]
fn decoding_splits_sign_exponent_and_fraction() {
    assert_eq!(
        Real::from_double_bits(1.0f64.to_bits()),
        Real::Finite {
            negative: false,
            mantissa: 1 << 52,
            exponent: -52
        }
    );
    assert_eq!(
        Real::from_single_bits((-3.0f32).to_bits()),
        Real::Finite {
            negative: true,
            mantissa: 3 << 22,
            exponent: -22
        }
    );
    assert_eq!(
        Real::from_double_bits(1),
        Real::Finite {
            negative: false,
            mantissa: 1,
            exponent: -1074
        }
    );
    assert_eq!(
        Real::from_single_bits(0x8000_0000),
        Real::Finite {
            negative: true,
            mantissa: 0,
            exponent: -149
        }
    );
    assert_eq!(
        Real::from_double_bits(f64::MAX.to_bits()),
        Real::Finite {
            negative: false,
            mantissa: (1 << 53) - 1,
            exponent: 971
        }
    );
    assert_eq!(
        Real::from_double_bits(f64::NEG_INFINITY.to_bits()),
        Real::Infinite { negative: true }
    );
    assert_eq!(Real::from_single_bits(f32::NAN.to_bits()), Real::NotANumber);
}

#[test]
fn every_error_reports_with_the_prefix() {
    let io = ExportError::Io {
        path: String::from("out.txt"),
        detail: String::from("permission denied"),
    };
    assert_eq!(io.report(), "ERROR: permission denied");
    assert_eq!(io.message(), "permission denied");
    assert_eq!(io.path(), "out.txt");
    assert_eq!(io.exit_code(), 1);
    let config = ExportError::Config {
        path: String::from("options.json"),
        field: Some(String::from("lower Hz")),
        detail: String::from("missing field `lower Hz` at line 1 column 25"),
    };
    assert_eq!(
        config.report(),
        "ERROR: missing field `lower Hz` at line 1 column 25"
    );
    assert_eq!(config.path(), "options.json");
    let conversion = ExportError::Conversion {
        path: String::from("rgb.nii"),
        datatype: 128,
        width: SampleWidth::Double,
        detail: String::from("unsupported data type"),
    };
    assert_eq!(conversion.report(), "ERROR: unsupported data type");
    assert_eq!(conversion.exit_code(), EXIT_FAILURE);
    let malformed = ExportError::Format {
        path: String::from("x.nii"),
        fault: FormatFault::Malformed {
            detail: String::from("invalid header size"),
        },
    };
    assert_eq!(malformed.report(), "ERROR: invalid header size");
    assert_eq!(EXIT_SUCCESS, 0);
}

#[test]
fn structural_faults_say_what_differs() {
    let report = |fault: FormatFault| {
        ExportError::Format {
            path: String::from("x.nii"),
            fault,
        }
        .report()
    };
    assert_eq!(
        report(FormatFault::Oversized),
        "ERROR: grid extents exceed the addressable size"
    );
    assert_eq!(
        report(FormatFault::CellCount {
            expected: 24,
            found: 23
        }),
        "ERROR: grid of 24 cells was given 23 samples"
    );
    assert_eq!(
        report(FormatFault::AxisCount {
            declared_axes: 4,
            realized_axes: 3
        }),
        "ERROR: header declares 4 axes, data holds 3"
    );
    assert_eq!(
        report(FormatFault::Extent {
            axis: 1,
            declared: 65535,
            realized: 2
        }),
        "ERROR: header declares extent 65535 on axis 1, data holds 2"
    );
}

fn args(words: &[&str]) -> Vec<String> {
    words.iter().map(|w| String::from(*w)).collect()
}

#[test]
fn two_paths_run_with_default_options() {
    let invocation = Invocation::parse(&args(&["prog", "in.nii", "out.txt"])).unwrap();
    assert_eq!(invocation.input_path, "in.nii");
    assert_eq!(invocation.options_path, None);
    assert_eq!(invocation.output_path, "out.txt");
}

#[test]
fn three_paths_name_an_options_file() {
    let invocation =
        Invocation::parse(&args(&["prog", "in.nii", "options.json", "out.txt"])).unwrap();
    assert_eq!(invocation.input_path, "in.nii");
    assert_eq!(invocation.options_path, Some(String::from("options.json")));
    assert_eq!(invocation.output_path, "out.txt");
    let invocation =
        Invocation::parse(&args(&["prog", "a", "b", "c", "d", "e"])).unwrap();
    assert_eq!(invocation.options_path, Some(String::from("b")));
    assert_eq!(invocation.output_path, "c");
}

#[test]
fn too_few_arguments_run_nothing() {
    assert!(Invocation::parse(&args(&[])).is_none());
    assert!(Invocation::parse(&args(&["prog"])).is_none());
    assert!(Invocation::parse(&args(&["prog", "in.nii"])).is_none());
    assert_eq!(
        missing_arguments_line(),
        "ERROR: Missing command line argument(s)"
    );
}

#[test]
fn usage_line_names_the_program() {
    assert_eq!(
        usage_line(&args(&["export", "x"])),
        "Usage: export INPUTFILE [OPTIONSFILE] OUTPUTFILE"
    );
    assert_eq!(
        usage_line(&args(&[])),
        "Usage: dicon-nifti-formatting.exe INPUTFILE [OPTIONSFILE] OUTPUTFILE"
    );
}
