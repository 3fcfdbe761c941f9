//! Stage 5 — preload: chip target and framework detection.
//!
//! Parses the `esphome:` block into the chip target, board and framework
//! that later stages work with.
use vstd::prelude::*;
use crate::error::{ValidationError, ValidationStage, Severity, DiagnosticView, diag, diag_hint, diags};
use crate::raw::{RawConfig, EsphomeBlock, opt_view, copy_opt};
use crate::validated::{ChipTarget, FrameworkType};
use crate::text::{
    to_lowercase, lowercase_of, remove_char, without_char, is_blank, blank, str_eq, concat3,
};

verus! {

/// Output of stage 5: the resolved hardware and firmware context.
#[derive(Debug)]
pub struct PreloadContext {
    /// Resolved chip target.
    pub chip_target: ChipTarget,
    /// Board identifier string (e.g. `"esp32dev"`).
    pub board: String,
    /// Resolved firmware framework.
    pub framework_type: FrameworkType,
    /// Framework version string.
    pub framework_version: Option<String>,
}

/// A name lowercased, with its dashes removed.
pub open spec fn normalized(s: Seq<char>) -> Seq<char> {
    without_char(lowercase_of(s), '-')
}

/// The chip a normalized platform name denotes; the supported targets are
/// ESP32, ESP32-S3 and ESP32-C6.
pub open spec fn chip_of(n: Seq<char>) -> Option<ChipTarget> {
    if n == "esp32"@ {
        Some(ChipTarget::Esp32)
    } else if n == "esp32s3"@ {
        Some(ChipTarget::Esp32S3)
    } else if n == "esp32c6"@ {
        Some(ChipTarget::Esp32C6)
    } else {
        None
    }
}

/// The framework a normalized framework name denotes.
pub open spec fn framework_of(n: Seq<char>) -> Option<FrameworkType> {
    if n == "espidf"@ || n == "idf"@ {
        Some(FrameworkType::EspIdf)
    } else if n == "arduino"@ {
        Some(FrameworkType::Arduino)
    } else {
        None
    }
}

/// The diagnostics of stage 5, in order: empty name, unsupported platform,
/// empty board, unknown framework type.
pub open spec fn preload_errors(e: EsphomeBlock) -> Seq<DiagnosticView> {
    let name_errs = if blank(e.name@) {
        seq![
            diag(
                ValidationStage::Preload,
                Severity::Error,
                "esphome.name"@,
                "device name must not be empty"@,
            ),
        ]
    } else {
        Seq::empty()
    };
    let p = normalized(e.platform@);
    let platform_errs = if chip_of(p) is None {
        seq![
            diag_hint(
                ValidationStage::Preload,
                Severity::Error,
                "esphome.platform"@,
                "unsupported platform '"@ + p
                    + "'; supported: esp32, esp32s3, esp32c6"@,
                "rshome supports ESP32, ESP32-S3, and ESP32-C6 targets only"@,
            ),
        ]
    } else {
        Seq::empty()
    };
    let board_errs = if blank(e.board@) {
        seq![
            diag(
                ValidationStage::Preload,
                Severity::Error,
                "esphome.board"@,
                "board identifier must not be empty"@,
            ),
        ]
    } else {
        Seq::empty()
    };
    let fw_errs = match e.framework {
        Some(fw) => {
            let f = normalized(fw.framework_type@);
            if framework_of(f) is None {
                seq![
                    diag(
                        ValidationStage::Preload,
                        Severity::Error,
                        "esphome.framework.type"@,
                        "unknown framework type '"@ + f + "'; supported: esp-idf, arduino"@,
                    ),
                ]
            } else {
                Seq::empty()
            }
        },
        None => Seq::empty(),
    };
    name_errs + platform_errs + board_errs + fw_errs
}

fn chip_lookup(n: &str) -> (r: Option<ChipTarget>)
    ensures
        r == chip_of(n@),
{
    if str_eq(n, "esp32") {
        Some(ChipTarget::Esp32)
    } else if str_eq(n, "esp32s3") {
        Some(ChipTarget::Esp32S3)
    } else if str_eq(n, "esp32c6") {
        Some(ChipTarget::Esp32C6)
    } else {
        None
    }
}

fn framework_lookup(n: &str) -> (r: Option<FrameworkType>)
    ensures
        r == framework_of(n@),
{
    if str_eq(n, "espidf") || str_eq(n, "idf") {
        Some(FrameworkType::EspIdf)
    } else if str_eq(n, "arduino") {
        Some(FrameworkType::Arduino)
    } else {
        None
    }
}

/// Stage 5: parse the `esphome:` block into a [`PreloadContext`].
///
/// Fails with every diagnostic found when the name or board is blank, the
/// platform is not a supported chip, or the framework type is unknown.
pub fn stage_5_preload_esphome_block(config: &RawConfig) -> (r: Result<
    PreloadContext,
    Vec<ValidationError>,
>)
    ensures
        match r {
            Ok(ctx) => {
                &&& preload_errors(config.esphome).len() == 0
                &&& Some(ctx.chip_target) == chip_of(normalized(config.esphome.platform@))
                &&& ctx.board@ == config.esphome.board@
                &&& ctx.framework_type == match config.esphome.framework {
                    Some(fw) => framework_of(normalized(fw.framework_type@))->Some_0,
                    None => FrameworkType::EspIdf,
                }
                &&& opt_view(ctx.framework_version) == match config.esphome.framework {
                    Some(fw) => opt_view(fw.version),
                    None => None,
                }
            },
            Err(errs) => {
                &&& preload_errors(config.esphome).len() > 0
                &&& diags(errs@) == preload_errors(config.esphome)
            },
        },
{
    let mut errors: Vec<ValidationError> = Vec::new();
    let esphome = &config.esphome;
    if is_blank(esphome.name.as_str()) {
        errors.push(
            ValidationError::error(
                ValidationStage::Preload,
                "esphome.name",
                "device name must not be empty",
            ),
        );
    }
    let lower = to_lowercase(esphome.platform.as_str());
    let p = remove_char(lower.as_str(), '-');
    let chip = chip_lookup(p.as_str());
    if chip.is_none() {
        let msg = concat3(
            "unsupported platform '",
            p.as_str(),
            "'; supported: esp32, esp32s3, esp32c6",
        );
        errors.push(
            ValidationError::error(ValidationStage::Preload, "esphome.platform", msg.as_str())
                .with_suggestion("rshome supports ESP32, ESP32-S3, and ESP32-C6 targets only"),
        );
    }
    if is_blank(esphome.board.as_str()) {
        errors.push(
            ValidationError::error(
                ValidationStage::Preload,
                "esphome.board",
                "board identifier must not be empty",
            ),
        );
    }
    let (framework_type, framework_version) = match &esphome.framework {
        None => (FrameworkType::EspIdf, None),
        Some(fw) => {
            let lower = to_lowercase(fw.framework_type.as_str());
            let f = remove_char(lower.as_str(), '-');
            let ft = match framework_lookup(f.as_str()) {
                Some(t) => t,
                None => {
                    let msg = concat3(
                        "unknown framework type '",
                        f.as_str(),
                        "'; supported: esp-idf, arduino",
                    );
                    errors.push(
                        ValidationError::error(
                            ValidationStage::Preload,
                            "esphome.framework.type",
                            msg.as_str(),
                        ),
                    );
                    FrameworkType::EspIdf
                },
            };
            (ft, copy_opt(&fw.version))
        },
    };
    proof {
        assert(diags(errors@) =~= preload_errors(config.esphome));
    }
    if errors.len() > 0 {
        return Err(errors);
    }
    match chip {
        Some(chip_target) => Ok(
            PreloadContext {
                chip_target,
                board: esphome.board.clone(),
                framework_type,
                framework_version,
            },
        ),
        None => Err(errors),
    }
}

} // verus!
