//! What the program decides at start-up, before its window opens: the
//! settings for this session, a warning for a refused `--box-url`, and what
//! to open first.
use crate::app::cli::CliOptions;
use crate::settings::store::{acceptable_box_url, validate_box_url, AppSettings, BOX_URL_SCHEME_ERROR};
use crate::enigma2::urls::normalized_base;
use crate::text::{is_blank, trim};
use vstd::prelude::*;

verus! {

/// The start-up decision.
#[derive(Debug)]
pub struct StartupPlan {
    /// The settings for this session (nothing is written back).
    pub settings: AppSettings,
    /// A message to print when `--box-url` was refused.
    pub warning: Option<String>,
    /// The settings window opens, as no receiver is set.
    pub open_settings: bool,
    /// The channel picker opens once the window is up.
    pub show_picker: bool,
    /// The first channel plays once the window is up.
    pub start_first: bool,
}

/// The start-up decision for the stored settings `loaded` and the launch
/// options: a valid `--box-url` replaces the stored receiver URL for this
/// session (normalized), a refused one leaves it and gives the scheme
/// warning; the settings window opens when the URL is blank, and only
/// otherwise do `--show-picker` and `--start-first` apply.
pub fn startup_plan(loaded: AppSettings, options: &CliOptions) -> (r: StartupPlan)
    ensures
        match options.box_url {
            Some(u) => if acceptable_box_url(normalized_base(u@)) {
                r.settings.box_url@ == normalized_base(u@) && r.warning is None
            } else {
                r.settings.box_url@ == loaded.box_url@ && (r.warning matches Some(m) && m@
                    == BOX_URL_SCHEME_ERROR@)
            },
            None => r.settings.box_url@ == loaded.box_url@ && r.warning is None,
        },
        r.settings.hwdec == loaded.hwdec,
        r.open_settings == (trim(r.settings.box_url@).len() == 0),
        r.show_picker == (!r.open_settings && options.show_picker),
        r.start_first == (!r.open_settings && options.start_first),
{
    let mut settings = loaded;
    let mut warning: Option<String> = None;
    if let Some(box_url) = &options.box_url {
        match validate_box_url(box_url.as_str()) {
            Ok(u) => {
                settings = AppSettings { box_url: u, hwdec: settings.hwdec };
            },
            Err(m) => {
                warning = Some(m);
            },
        }
    }
    let open_settings = is_blank(settings.box_url.as_str());
    StartupPlan {
        settings,
        warning,
        open_settings,
        show_picker: !open_settings && options.show_picker,
        start_first: !open_settings && options.start_first,
    }
}

} // verus!
