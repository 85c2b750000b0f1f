//! The user settings: which receiver to use and whether to decode in
//! hardware, and the rules a stored receiver URL must meet.
use crate::enigma2::urls::{has_supported_url_scheme, normalize_base_url, normalized_base, supported_scheme};
use crate::text::{trim, trim_end_char};
use vstd::prelude::*;

verus! {

/// Why a receiver URL was refused.
pub const BOX_URL_SCHEME_ERROR: &'static str = "Enter a Dreambox / Enigma2 URL starting with http:// or https://.";

/// The user settings.
#[derive(Debug, PartialEq, Eq)]
pub struct AppSettings {
    pub box_url: String,
    pub hwdec: bool,
}

impl Clone for AppSettings {
    fn clone(&self) -> (r: Self)
        ensures
            r == *self,
    {
        AppSettings { box_url: self.box_url.clone(), hwdec: self.hwdec }
    }
}

impl Default for AppSettings {
    /// No receiver, hardware decoding on.
    fn default() -> (r: Self)
        ensures
            r.box_url@ == Seq::<char>::empty(),
            r.hwdec,
    {
        AppSettings { box_url: String::new(), hwdec: true }
    }
}

/// A receiver URL that may be stored: not empty once normalized, and with
/// an `http` or `https` scheme.
pub open spec fn acceptable_box_url(normalized: Seq<char>) -> bool {
    normalized.len() > 0 && supported_scheme(normalized)
}

impl AppSettings {
    /// The settings with the receiver URL normalized.
    pub fn normalized(self) -> (r: Self)
        ensures
            r.box_url@ == normalized_base(self.box_url@),
            r.hwdec == self.hwdec,
    {
        AppSettings { box_url: normalize_base_url(self.box_url.as_str()), hwdec: self.hwdec }
    }
}

/// The normalized receiver URL, or the scheme error when it is empty or
/// has no `http`/`https` scheme.
pub fn validate_box_url(value: &str) -> (r: Result<String, String>)
    ensures
        match r {
            Ok(u) => acceptable_box_url(normalized_base(value@)) && u@ == normalized_base(value@),
            Err(m) => !acceptable_box_url(normalized_base(value@)) && m@ == BOX_URL_SCHEME_ERROR@,
        },
{
    let normalized = normalize_base_url(value);
    if !normalized.as_str().is_empty() && has_supported_url_scheme(normalized.as_str()) {
        Ok(normalized)
    } else {
        Err(BOX_URL_SCHEME_ERROR.to_owned())
    }
}

/// The settings with a validated receiver URL.
pub fn validate_settings(settings: &AppSettings) -> (r: Result<AppSettings, String>)
    ensures
        match r {
            Ok(s) => acceptable_box_url(normalized_base(settings.box_url@)) && s.box_url@
                == normalized_base(settings.box_url@) && s.hwdec == settings.hwdec,
            Err(m) => !acceptable_box_url(normalized_base(settings.box_url@)) && m@
                == BOX_URL_SCHEME_ERROR@,
        },
{
    match validate_box_url(settings.box_url.as_str()) {
        Ok(box_url) => Ok(AppSettings { box_url, hwdec: settings.hwdec }),
        Err(m) => Err(m),
    }
}

/// The settings to use once the settings file was read: the defaults when
/// there was none or it did not parse, or when its receiver URL (normalized)
/// is set but has no supported scheme; else the stored settings, normalized.
pub fn settings_after_load(stored: Option<AppSettings>) -> (r: AppSettings)
    ensures
        match stored {
            None => r.box_url@.len() == 0 && r.hwdec,
            Some(s) => if normalized_base(s.box_url@).len() == 0 || supported_scheme(
                normalized_base(s.box_url@),
            ) {
                r.box_url@ == normalized_base(s.box_url@) && r.hwdec == s.hwdec
            } else {
                r.box_url@.len() == 0 && r.hwdec
            },
        },
        r.box_url@.len() == 0 || acceptable_box_url(r.box_url@),
{
    match stored {
        None => AppSettings::default(),
        Some(s) => {
            let settings = s.normalized();
            if settings.box_url.as_str().is_empty() || has_supported_url_scheme(
                settings.box_url.as_str(),
            ) {
                settings
            } else {
                AppSettings::default()
            }
        },
    }
}

proof fn lemma_trim_end_char_stable(s: Seq<char>, c: char)
    requires
        s.len() == 0 || s.last() != c,
    ensures
        trim_end_char(s, c) == s,
{
}

/// A URL that validation accepted is accepted again unchanged, as long as
/// normalizing did not leave white space at its end (which happens only
/// when slashes followed a space).
pub proof fn validated_url_is_stable(value: Seq<char>)
    requires
        acceptable_box_url(normalized_base(value)),
        trim(normalized_base(value)) == normalized_base(value),
    ensures
        normalized_base(normalized_base(value)) == normalized_base(value),
        acceptable_box_url(normalized_base(normalized_base(value))),
{
    let n = normalized_base(value);
    crate::enigma2::urls::normalized_base_is_clean(value);
    lemma_trim_end_char_stable(n, '/');
}

/// What `Path::join` gives for the paths `base` and `part`, both written as
/// text: `part` added to `base` by the path rules of the platform the crate
/// is built for (a separator between them where needed; `part` alone when
/// it is absolute).
pub uninterp spec fn path_joined(base: Seq<char>, part: Seq<char>) -> Seq<char>;

/// `Path::join` on text paths. Both are valid UTF-8, so the joined path is
/// too, and `to_string_lossy` gives it back unchanged.
#[verifier::external_body]
fn join_path(base: &str, part: &str) -> (r: String)
    ensures
        r@ == path_joined(base@, part@),
{
    std::path::Path::new(base).join(part).to_string_lossy().into_owned()
}

/// An optional text as a value of specs.
pub open spec fn text_of(o: Option<&str>) -> Option<Seq<char>> {
    match o {
        Some(t) => Some(t@),
        None => None,
    }
}

/// The directory that holds the configuration: `XDG_CONFIG_HOME` when it
/// is set, else `.config` in `HOME`, else the working directory.
pub open spec fn config_root_of(xdg_config_home: Option<Seq<char>>, home: Option<Seq<char>>) -> Seq<
    char,
> {
    match xdg_config_home {
        Some(x) => x,
        None => match home {
            Some(h) => path_joined(h, ".config"@),
            None => "."@,
        },
    }
}

/// Where the settings file lies: `enigma2-player/settings.json` in the
/// configuration directory.
pub open spec fn settings_path_of(xdg_config_home: Option<Seq<char>>, home: Option<Seq<char>>) -> Seq<
    char,
> {
    path_joined(
        path_joined(config_root_of(xdg_config_home, home), "enigma2-player"@),
        "settings.json"@,
    )
}

/// The settings file's path for the values of `XDG_CONFIG_HOME` and `HOME`
/// (each `None` when unset).
pub fn settings_path_from(xdg_config_home: Option<&str>, home: Option<&str>) -> (r: String)
    ensures
        r@ == settings_path_of(text_of(xdg_config_home), text_of(home)),
{
    let root = match xdg_config_home {
        Some(x) => x.to_owned(),
        None => match home {
            Some(h) => join_path(h, ".config"),
            None => ".".to_owned(),
        },
    };
    let dir = join_path(root.as_str(), "enigma2-player");
    join_path(dir.as_str(), "settings.json")
}

} // verus!
