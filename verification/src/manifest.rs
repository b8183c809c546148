//! The `plugin.toml` manifest: its fields and the rules a manifest must meet.

use vstd::prelude::*;
use crate::text::{
    chars_of, concat3, is_ascii_lower_or_digit, str_eq, to_string, trim,
    trim_str,
};

verus! {

/// The manifest schema this version understands.
pub const SM_PLUGIN_SCHEMA: &'static str = "sm.plugin.v1";

/// The plugin timeout when the manifest names none.
pub const DEFAULT_TIMEOUT_SECONDS: u64 = 300;

/// How a plugin is started.
#[derive(Debug, Clone, Copy, PartialEq, Eq, Structural)]
pub enum PluginEntryKind {
    Process,
}

/// The platforms a plugin binary can be built for.
#[derive(Debug, Clone, Copy, PartialEq, Eq, Structural, Hash)]
pub enum PluginPlatform {
    LinuxX64,
    LinuxArm64,
    WindowsX64,
    MacOsX64,
    MacOsArm64,
}

/// What a plugin can produce.
#[derive(Debug, Clone, Copy, PartialEq, Eq, Structural)]
pub struct PluginCapabilities {
    pub text: bool,
    pub layout: bool,
    pub ocr: bool,
}

/// What a plugin may do.
#[derive(Debug, Clone, Copy, PartialEq, Eq, Structural)]
pub enum PluginPermission {
    ReadSourceFile,
    WriteSmOutputs,
}

/// The command that runs a plugin.
#[derive(Debug, Clone)]
pub struct PluginEntry {
    pub kind: PluginEntryKind,
    pub command: String,
    pub args: Vec<String>,
}

/// A parsed `plugin.toml`.
#[derive(Debug, Clone)]
pub struct PluginManifest {
    pub schema: String,
    pub id: String,
    pub name: String,
    pub version: String,
    pub description: Option<String>,
    pub developer: Option<String>,
    pub homepage: Option<String>,
    pub handles: Vec<String>,
    pub entry: PluginEntry,
    pub capabilities: PluginCapabilities,
    pub permissions: Vec<PluginPermission>,
    pub requires_entitlement: bool,
    pub timeout_seconds: Option<u64>,
    pub platforms: Option<Vec<PluginPlatform>>,
}

/// The name a platform has in manifests and download URLs.
pub open spec fn platform_name(p: PluginPlatform) -> Seq<char> {
    match p {
        PluginPlatform::LinuxX64 => "linux-x64"@,
        PluginPlatform::LinuxArm64 => "linux-arm64"@,
        PluginPlatform::WindowsX64 => "windows-x64"@,
        PluginPlatform::MacOsX64 => "macos-x64"@,
        PluginPlatform::MacOsArm64 => "macos-arm64"@,
    }
}

impl PluginPlatform {
    pub fn as_str(self) -> (r: &'static str)
        ensures
            r@ == platform_name(self),
    {
        match self {
            PluginPlatform::LinuxX64 => "linux-x64",
            PluginPlatform::LinuxArm64 => "linux-arm64",
            PluginPlatform::WindowsX64 => "windows-x64",
            PluginPlatform::MacOsX64 => "macos-x64",
            PluginPlatform::MacOsArm64 => "macos-arm64",
        }
    }
}

/// `^[a-z0-9.-]+$`.
pub open spec fn valid_plugin_id(s: Seq<char>) -> bool {
    s.len() > 0 && forall|i: int|
        0 <= i < s.len() ==> #[trigger] is_ascii_lower_or_digit(s[i]) || s[i] == '.' || s[i]
            == '-'
}

/// `^\.[a-z0-9]+$`.
pub open spec fn valid_extension(s: Seq<char>) -> bool {
    s.len() > 1 && s[0] == '.' && forall|i: int|
        1 <= i < s.len() ==> #[trigger] is_ascii_lower_or_digit(s[i])
}

/// Whether `url::Url::parse` accepts the text.
pub uninterp spec fn url_parse_succeeds(s: Seq<char>) -> bool;

/// The text `{:?}` writes for a string.
pub uninterp spec fn str_debug_text(s: Seq<char>) -> Seq<char>;

/// Whether the homepage, when present, is a URL.
pub open spec fn homepage_ok(h: Option<String>) -> bool {
    match h {
        None => true,
        Some(u) => url_parse_succeeds(u@),
    }
}

/// The first handle that is not an extension, if any.
pub open spec fn first_bad_handle(handles: Seq<Seq<char>>) -> Option<int> {
    if exists|i: int| 0 <= i < handles.len() && !valid_extension(handles[i]) {
        Some(
            choose|i: int|
                0 <= i < handles.len() && !valid_extension(handles[i]) && forall|j: int|
                    0 <= j < i ==> valid_extension(handles[j]),
        )
    } else {
        None
    }
}

/// The first rule a manifest breaks, as its error message, checked in order.
pub open spec fn manifest_error(m: PluginManifest) -> Option<Seq<char>> {
    let handles = m.handles@.map_values(|h: String| h@);
    if m.schema@ != SM_PLUGIN_SCHEMA@ {
        Some(
            "unsupported plugin schema "@ + str_debug_text(m.schema@) + "; expected "@
                + SM_PLUGIN_SCHEMA@,
        )
    } else if !valid_plugin_id(m.id@) {
        Some("plugin id must match ^[a-z0-9.-]+$"@)
    } else if trim(m.name@).len() == 0 {
        Some("plugin name must not be empty"@)
    } else if trim(m.version@).len() == 0 {
        Some("plugin version must not be empty"@)
    } else if !homepage_ok(m.homepage) {
        Some("plugin homepage must be a valid URI"@)
    } else if m.handles@.len() == 0 {
        Some("plugin handles must not be empty"@)
    } else if first_bad_handle(handles) is Some {
        Some(
            "plugin handle "@ + str_debug_text(handles[first_bad_handle(handles)->0])
                + " must match ^\\.[a-z0-9]+$"@,
        )
    } else if trim(m.entry.command@).len() == 0 {
        Some("entry.command must not be empty"@)
    } else if m.timeout_seconds matches Some(t) && (t == 0 || t > 3600) {
        Some("timeout_seconds must be between 1 and 3600"@)
    } else {
        None
    }
}

/// Calls `url::Url::parse` and tells whether it succeeded; the contract
/// names that outcome (`url_parse_succeeds`) and claims nothing more of it.
#[verifier::external_body]
fn url_parses(s: &str) -> (r: bool)
    ensures
        r == url_parse_succeeds(s@),
{
    url::Url::parse(s).is_ok()
}

/// Writes `s` with `format!("{:?}")`, the `Debug` text of `str` (quoted,
/// with escapes); the contract names that text (`str_debug_text`) and
/// claims nothing more of it.
#[verifier::external_body]
pub(crate) fn debug_str(s: &str) -> (r: String)
    ensures
        r@ == str_debug_text(s@),
{
    format!("{:?}", s)
}

/// Whether `value` matches `^[a-z0-9.-]+$`.
#[verifier::loop_isolation(false)]
pub fn is_valid_plugin_id(value: &str) -> (r: bool)
    ensures
        r == valid_plugin_id(value@),
{
    let v = chars_of(value);
    if v.len() == 0 {
        return false;
    }
    let mut i: usize = 0;
    while i < v.len()
        invariant
            i <= v.len(),
            forall|j: int|
                0 <= j < i ==> #[trigger] is_ascii_lower_or_digit(v@[j]) || v@[j] == '.' || v@[j]
                    == '-',
        decreases v.len() - i,
    {
        let c = v[i];
        if !(('a' <= c && c <= 'z') || ('0' <= c && c <= '9') || c == '.' || c == '-') {
            assert(!is_ascii_lower_or_digit(v@[i as int]));
            return false;
        }
        i = i + 1;
    }
    true
}

/// Whether `value` matches `^\.[a-z0-9]+$`.
#[verifier::loop_isolation(false)]
pub fn is_valid_extension(value: &str) -> (r: bool)
    ensures
        r == valid_extension(value@),
{
    let v = chars_of(value);
    if v.len() < 2 || v[0] != '.' {
        return false;
    }
    let mut i: usize = 1;
    while i < v.len()
        invariant
            1 <= i <= v.len(),
            forall|j: int| 1 <= j < i ==> #[trigger] is_ascii_lower_or_digit(v@[j]),
        decreases v.len() - i,
    {
        let c = v[i];
        if !(('a' <= c && c <= 'z') || ('0' <= c && c <= '9')) {
            assert(!is_ascii_lower_or_digit(v@[i as int]));
            return false;
        }
        i = i + 1;
    }
    true
}

/// Whether `s` is empty or white space only.
pub fn is_blank(s: &str) -> (r: bool)
    ensures
        r == (trim(s@).len() == 0),
{
    let t = trim_str(s);
    t.unicode_len() == 0
}

impl PluginManifest {
    /// Checks the manifest's rules in order and reports the first one broken.
    #[verifier::loop_isolation(false)]
    pub fn validate(&self) -> (r: Result<(), String>)
        ensures
            r is Ok <==> manifest_error(*self) is None,
            r matches Err(e) ==> manifest_error(*self) == Some(e@),
    {
        if !str_eq(self.schema.as_str(), SM_PLUGIN_SCHEMA) {
            let d = debug_str(self.schema.as_str());
            let mut msg = concat3("unsupported plugin schema ", d.as_str(), "; expected ");
            msg.append(SM_PLUGIN_SCHEMA);
            return Err(msg);
        }
        if !is_valid_plugin_id(self.id.as_str()) {
            return Err(to_string("plugin id must match ^[a-z0-9.-]+$"));
        }
        if is_blank(self.name.as_str()) {
            return Err(to_string("plugin name must not be empty"));
        }
        if is_blank(self.version.as_str()) {
            return Err(to_string("plugin version must not be empty"));
        }
        match &self.homepage {
            Some(h) => {
                if !url_parses(h.as_str()) {
                    return Err(to_string("plugin homepage must be a valid URI"));
                }
            },
            None => {},
        }
        if self.handles.len() == 0 {
            return Err(to_string("plugin handles must not be empty"));
        }
        let ghost handles = self.handles@.map_values(|h: String| h@);
        let mut i: usize = 0;
        while i < self.handles.len()
            invariant
                i <= self.handles.len(),
                handles == self.handles@.map_values(|h: String| h@),
                forall|j: int| 0 <= j < i ==> valid_extension(handles[j]),
            decreases self.handles.len() - i,
        {
            if !is_valid_extension(self.handles[i].as_str()) {
                proof {
                    let k = first_bad_handle(handles)->0;
                    assert(0 <= i < handles.len() && !valid_extension(handles[i as int]));
                    let c = choose|c: int|
                        0 <= c < handles.len() && !valid_extension(handles[c]) && forall|j: int|
                            0 <= j < c ==> valid_extension(handles[j]);
                    assert(0 <= c < handles.len() && !valid_extension(handles[c]) && forall|j: int|
                        0 <= j < c ==> valid_extension(handles[j]));
                    if c < i {
                        assert(valid_extension(handles[c]));
                    }
                    if c > i {
                        assert(valid_extension(handles[i as int]));
                    }
                    assert(first_bad_handle(handles) == Some(i as int));
                    assert(handles[i as int] == self.handles@[i as int]@);
                }
                let d = debug_str(self.handles[i].as_str());
                return Err(concat3("plugin handle ", d.as_str(), " must match ^\\.[a-z0-9]+$"));
            }
            i = i + 1;
        }
        assert(first_bad_handle(handles) is None);
        match self.entry.kind {
            PluginEntryKind::Process => {},
        }
        if is_blank(self.entry.command.as_str()) {
            return Err(to_string("entry.command must not be empty"));
        }
        match self.timeout_seconds {
            Some(t) => {
                if t == 0 || t > 3600 {
                    return Err(to_string("timeout_seconds must be between 1 and 3600"));
                }
            },
            None => {},
        }
        Ok(())
    }

    /// The plugin's timeout, or the default when the manifest names none.
    pub fn timeout_seconds(&self) -> (r: u64)
        ensures
            r == match self.timeout_seconds {
                Some(t) => t,
                None => DEFAULT_TIMEOUT_SECONDS,
            },
    {
        match self.timeout_seconds {
            Some(t) => t,
            None => DEFAULT_TIMEOUT_SECONDS,
        }
    }

    /// A manifest without a platform list supports every platform.
    #[verifier::loop_isolation(false)]
    pub fn supports_platform(&self, platform: PluginPlatform) -> (r: bool)
        ensures
            r == match self.platforms {
                None => true,
                Some(ps) => ps@.contains(platform),
            },
    {
        match &self.platforms {
            None => true,
            Some(ps) => {
                let mut i: usize = 0;
                while i < ps.len()
                    invariant
                        i <= ps.len(),
                        forall|j: int| 0 <= j < i ==> ps@[j] != platform,
                    decreases ps.len() - i,
                {
                    if ps[i] == platform {
                        assert(ps@[i as int] == platform);
                        return true;
                    }
                    i = i + 1;
                }
                false
            },
        }
    }
}

/// The platform for an operating system and architecture name
/// (`std::env::consts::OS` and `ARCH`).
pub open spec fn platform_for(os: Seq<char>, arch: Seq<char>) -> Option<PluginPlatform> {
    if os == "linux"@ && arch == "x86_64"@ {
        Some(PluginPlatform::LinuxX64)
    } else if os == "linux"@ && arch == "aarch64"@ {
        Some(PluginPlatform::LinuxArm64)
    } else if os == "windows"@ && arch == "x86_64"@ {
        Some(PluginPlatform::WindowsX64)
    } else if os == "macos"@ && arch == "x86_64"@ {
        Some(PluginPlatform::MacOsX64)
    } else if os == "macos"@ && arch == "aarch64"@ {
        Some(PluginPlatform::MacOsArm64)
    } else {
        None
    }
}

/// The plugin platform of the given operating system and architecture.
pub fn current_platform(os: &str, arch: &str) -> (r: Result<PluginPlatform, String>)
    ensures
        r matches Ok(p) ==> platform_for(os@, arch@) == Some(p),
        r matches Err(e) ==> platform_for(os@, arch@) is None && e@
            == "unsupported plugin platform "@ + os@ + "-"@ + arch@,
        r is Ok <==> platform_for(os@, arch@) is Some,
{
    let linux = str_eq(os, "linux");
    let windows = str_eq(os, "windows");
    let macos = str_eq(os, "macos");
    let x64 = str_eq(arch, "x86_64");
    let arm = str_eq(arch, "aarch64");
    if linux && x64 {
        Ok(PluginPlatform::LinuxX64)
    } else if linux && arm {
        Ok(PluginPlatform::LinuxArm64)
    } else if windows && x64 {
        Ok(PluginPlatform::WindowsX64)
    } else if macos && x64 {
        Ok(PluginPlatform::MacOsX64)
    } else if macos && arm {
        Ok(PluginPlatform::MacOsArm64)
    } else {
        let mut msg = concat3("unsupported plugin platform ", os, "-");
        msg.append(arch);
        Err(msg)
    }
}

} // verus!
