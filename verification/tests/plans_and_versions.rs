use texture_manager::app_update::{is_newer_version, normalize_sha256, parse_semver_triple, AndroidStorageStatus};
use texture_manager::contracts::{
    phase_defaults, ConvertToNewVersionOptions, GlowMakerOptions, MergerOptions, OperationKind,
    OperationOptions, OperationRequest, PorterOptions, SplitterOptions, UpscalerModel,
};
use texture_manager::errors::AppError;
use texture_manager::operations::build_operation_plan;

#[test]
fn parses_semver_triples() {
    assert_eq!(parse_semver_triple("0.4.1"), Some((0, 4, 1)));
    assert_eq!(parse_semver_triple("v1.2"), Some((1, 2, 0)));
    assert_eq!(parse_semver_triple("2.0.0-beta"), Some((2, 0, 0)));
}

#[test]
fn compares_versions() {
    assert!(is_newer_version("0.4.1", "0.4.0"));
    assert!(!is_newer_version("0.4.0", "0.4.0"));
    assert!(!is_newer_version("0.3.9", "0.4.0"));
}

#[test]
fn semver_rejects_text_without_numbers() {
    assert_eq!(parse_semver_triple("beta"), None);
    assert_eq!(parse_semver_triple(""), None);
}

#[test]
fn newer_version_of_a_major_release() {
    assert!(is_newer_version("1.0.0", "0.9.9"));
    assert!(!is_newer_version("0.9.9", "1.0.0"));
}

#[test]
fn sha256_digest_is_trimmed_and_lowered() {
    let upper = format!("  {}  ", "AB".repeat(32));
    assert_eq!(normalize_sha256(&upper), Ok("ab".repeat(32)));
}

#[test]
fn sha256_digest_of_wrong_length_is_refused() {
    assert_eq!(
        normalize_sha256("abc"),
        Err("Expected a 64-character hex SHA-256 digest.".to_string())
    );
    let not_hex = "g".repeat(64);
    assert!(normalize_sha256(&not_hex).is_err());
}

#[test]
fn android_storage_ready_needs_both_grants() {
    let ready = AndroidStorageStatus { all_files_granted: true, geode_readable: true, geode_path: None };
    let partial = AndroidStorageStatus { all_files_granted: true, geode_readable: false, geode_path: None };
    assert!(ready.ready());
    assert!(!partial.ready());
}

#[test]
fn phase_defaults_include_convert_to_new_version() {
    let defaults = phase_defaults();
    assert_eq!(defaults.convert_to_new_version.game_version, "");
    assert_eq!(defaults.convert_to_new_version.sheet_concurrency, 5);
    assert_eq!(defaults.upscaler.sheet_concurrency, 1);
    assert!(!defaults.upscaler.convert_to_latest);
    assert_eq!(defaults.upscaler.model, UpscalerModel::Waifu2x);
}

#[test]
fn splitter_forces_non_toggleable_defaults() {
    let request = OperationRequest {
        kind: OperationKind::Splitter,
        input_dir: "input".to_string(),
        output_dir: "output".to_string(),
        options: Some(OperationOptions::Splitter(SplitterOptions {
            sheet_concurrency: 2,
            skip_icons: false,
        })),
    };

    let plan = build_operation_plan(request).expect("plan should be built");
    match plan.options {
        OperationOptions::Splitter(options) => {
            assert_eq!(options.sheet_concurrency, 2);
        }
        _ => panic!("expected splitter options"),
    }
}

#[test]
fn porter_forces_auto_adjust_and_alpha_trim() {
    let request = OperationRequest {
        kind: OperationKind::PorterSplitter,
        input_dir: "input".to_string(),
        output_dir: "output".to_string(),
        options: Some(OperationOptions::PorterSplitter(PorterOptions {
            low_port: true,
            dimensions: None,
            sheet_concurrency: 3,
        })),
    };

    let plan = build_operation_plan(request).expect("plan should be built");
    match plan.options {
        OperationOptions::PorterSplitter(options) => {
            assert!(options.low_port);
            assert_eq!(options.sheet_concurrency, 3);
        }
        _ => panic!("expected porter splitter options"),
    }
}

#[test]
fn merger_forces_auto_adjust_and_alpha_trim() {
    let request = OperationRequest {
        kind: OperationKind::Merger,
        input_dir: "input".to_string(),
        output_dir: "output".to_string(),
        options: Some(OperationOptions::Merger(MergerOptions {
            include_outside_plist_files: true,
            dimensions: None,
            sheet_concurrency: 8,
        })),
    };

    let plan = build_operation_plan(request).expect("plan should be built");
    match plan.options {
        OperationOptions::Merger(options) => {
            assert!(options.include_outside_plist_files);
            assert_eq!(options.sheet_concurrency, 8);
        }
        _ => panic!("expected merger options"),
    }
}

#[test]
fn convert_to_new_version_clamps_and_trims_fields() {
    let request = OperationRequest {
        kind: OperationKind::ConvertToNewVersion,
        input_dir: "input".to_string(),
        output_dir: "output".to_string(),
        options: Some(OperationOptions::ConvertToNewVersion(ConvertToNewVersionOptions {
            game_version: " 2.206 ".to_string(),
            sheet_concurrency: 99,
        })),
    };

    let plan = build_operation_plan(request).expect("plan should be built");
    match plan.options {
        OperationOptions::ConvertToNewVersion(options) => {
            assert_eq!(options.game_version, "2.206");
            assert_eq!(options.sheet_concurrency, 64);
        }
        _ => panic!("expected convert to new version options"),
    }
}

#[test]
fn plan_refuses_blank_input_folder() {
    let request = OperationRequest {
        kind: OperationKind::Splitter,
        input_dir: "   ".to_string(),
        output_dir: "output".to_string(),
        options: None,
    };
    assert_eq!(
        build_operation_plan(request),
        Err(AppError::InvalidPath("input directory cannot be empty"))
    );
}

#[test]
fn plan_refuses_blank_output_folder() {
    let request = OperationRequest {
        kind: OperationKind::Merger,
        input_dir: "input".to_string(),
        output_dir: "".to_string(),
        options: None,
    };
    assert_eq!(
        build_operation_plan(request),
        Err(AppError::InvalidPath("output directory cannot be empty"))
    );
}

#[test]
fn plan_refuses_options_of_another_tool() {
    let request = OperationRequest {
        kind: OperationKind::Merger,
        input_dir: "input".to_string(),
        output_dir: "output".to_string(),
        options: Some(OperationOptions::Splitter(SplitterOptions {
            sheet_concurrency: 2,
            skip_icons: false,
        })),
    };
    assert_eq!(
        build_operation_plan(request),
        Err(AppError::InvalidOperation("merger options mismatch"))
    );
}

#[test]
fn plan_without_options_takes_phase_defaults() {
    let request = OperationRequest {
        kind: OperationKind::PorterSplitter,
        input_dir: "input".to_string(),
        output_dir: "output".to_string(),
        options: None,
    };
    let plan = build_operation_plan(request).expect("plan");
    assert_eq!(
        plan.options,
        OperationOptions::PorterSplitter(PorterOptions {
            low_port: false,
            dimensions: None,
            sheet_concurrency: 5,
        })
    );
}

#[test]
fn plan_clamps_zero_concurrency_and_glow_thickness() {
    let request = OperationRequest {
        kind: OperationKind::GlowMaker,
        input_dir: "input".to_string(),
        output_dir: "output".to_string(),
        options: Some(OperationOptions::GlowMaker(GlowMakerOptions {
            thickness: 500,
            tolerance: 6,
            dimensions: None,
            rainbow_glow: true,
            composite_layers: false,
        })),
    };
    let plan = build_operation_plan(request).expect("plan");
    match plan.options {
        OperationOptions::GlowMaker(options) => {
            assert_eq!(options.thickness, 128);
            assert_eq!(options.tolerance, 6);
            assert!(options.rainbow_glow);
        }
        _ => panic!("expected glow options"),
    }
}

#[test]
fn app_error_message_has_kind_prefix() {
    assert_eq!(
        AppError::InvalidPath("x").message(),
        "invalid path: x".to_string()
    );
    assert_eq!(AppError::IoError("disk".to_string()).message(), "io error: disk".to_string());
    assert_eq!(AppError::Cancelled.message(), "operation cancelled".to_string());
}
