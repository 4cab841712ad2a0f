use vstd::prelude::*;

use crate::text::{chars_of, same_text, starts_with, string_of};
use vstd::string::StringExecFns;

verus! {

pub open spec fn opt_view(o: Option<String>) -> Option<Seq<char>> {
    match o {
        Some(s) => Some(s@),
        None => None,
    }
}

/// A copy of an optional string.
pub fn copy_opt(o: &Option<String>) -> (r: Option<String>)
    ensures
        opt_view(r) == opt_view(*o),
{
    match o {
        Some(s) => Some(s.clone()),
        None => None,
    }
}

/// Icon paths, one per operating-system family.
pub struct Icons {
    pub linux: Option<String>,
    pub macos: Option<String>,
    pub windows: Option<String>,
}

impl Icons {
    pub open spec fn get_for_current_os_spec(&self, os: Seq<char>) -> Option<String> {
        if os == "linux"@ {
            self.linux
        } else if os == "macos"@ {
            self.macos
        } else if os == "windows"@ {
            self.windows
        } else {
            None
        }
    }

    /// The icon path configured for the operating system named `os`
    /// (`"linux"`, `"macos"` or `"windows"`); none for any other name.
    pub fn get_for_current_os(&self, os: &str) -> (r: Option<String>)
        ensures
            opt_view(r) == opt_view(self.get_for_current_os_spec(os@)),
    {
        if same_text(os, "linux") {
            copy_opt(&self.linux)
        } else if same_text(os, "macos") {
            copy_opt(&self.macos)
        } else if same_text(os, "windows") {
            copy_opt(&self.windows)
        } else {
            None
        }
    }
}

/// Commands and paths of the build.
pub struct Build {
    pub before_build_command: String,
    pub before_dev_command: String,
    /// Where the content is served from while developing; the start URL of a
    /// window whose surface names none.
    pub dev_path: String,
}

pub struct Package {
    pub product_name: String,
    pub version: String,
}

/// The windows to create, in order.
pub struct Pywui {
    pub windows: Vec<WindowAttributesConfig>,
}

pub struct Config {
    pub build: Build,
    pub package: Package,
    pub pywui: Pywui,
    pub icon: Icons,
}

/// Attributes of a rendered surface, as configured; `None` takes the default.
pub struct WebViewAttributesConfig {
    pub user_agent: Option<String>,
    pub visible: Option<bool>,
    pub transparent: Option<bool>,
    pub background_color: Option<(u8, u8, u8, u8)>,
    pub url: Option<String>,
    pub zoom_hotkeys_enabled: Option<bool>,
    pub html: Option<String>,
    pub initialization_scripts: Option<Vec<(String, bool)>>,
    pub clipboard: Option<bool>,
    pub devtools: Option<bool>,
    pub accept_first_mouse: Option<bool>,
    pub back_forward_navigation_gestures: Option<bool>,
    pub incognito: Option<bool>,
    pub autoplay: Option<bool>,
    pub focused: Option<bool>,
}

/// Attributes of a window, as configured; `None` takes the default.
pub struct WindowAttributesConfig {
    pub label: Option<String>,
    pub resizable: Option<bool>,
    pub minimizable: Option<bool>,
    pub maximizable: Option<bool>,
    pub closable: Option<bool>,
    pub title: Option<String>,
    pub width: Option<i32>,
    pub height: Option<i32>,
    pub maximized: Option<bool>,
    pub visible: Option<bool>,
    pub transparent: Option<bool>,
    pub decorations: Option<bool>,
    pub always_on_top: Option<bool>,
    pub always_on_bottom: Option<bool>,
    pub focused: Option<bool>,
    pub content_protection: Option<bool>,
    pub visible_on_all_workspaces: Option<bool>,
    pub background_color: Option<(u8, u8, u8, u8)>,
    pub webview: Option<WebViewAttributesConfig>,
}

/// Fully resolved attributes of a window.
pub struct WindowSettings {
    pub title: String,
    pub width: i32,
    pub height: i32,
    pub decorations: bool,
    pub transparent: bool,
    pub background_color: (u8, u8, u8, u8),
    pub always_on_top: bool,
    pub always_on_bottom: bool,
    pub closable: bool,
    pub maximized: bool,
    pub maximizable: bool,
    pub minimizable: bool,
    pub focused: bool,
    pub resizable: bool,
    pub visible: bool,
    pub content_protection: bool,
    pub visible_on_all_workspaces: bool,
}

/// Fully resolved attributes of a rendered surface.
pub struct WebViewSettings {
    pub user_agent: Option<String>,
    pub visible: bool,
    pub transparent: bool,
    pub background_color: Option<(u8, u8, u8, u8)>,
    /// Where the surface starts; always carries a scheme.
    pub url: Option<String>,
    pub zoom_hotkeys_enabled: bool,
    pub html: Option<String>,
    pub clipboard: bool,
    pub devtools: bool,
    pub accept_first_mouse: bool,
    pub back_forward_navigation_gestures: bool,
    pub incognito: bool,
    pub autoplay: bool,
    pub focused: bool,
}

pub open spec fn or_default<T>(o: Option<T>, d: T) -> T {
    match o {
        Some(v) => v,
        None => d,
    }
}

pub open spec fn starts(s: Seq<char>, prefix: Seq<char>) -> bool {
    prefix.len() <= s.len() && s.subrange(0, prefix.len() as int) == prefix
}

/// Whether `url` names one of the schemes that a surface loads as it is.
pub open spec fn has_known_scheme(url: Seq<char>) -> bool {
    ||| starts(url, "http://"@)
    ||| starts(url, "https://"@)
    ||| starts(url, "ftp://"@)
    ||| starts(url, "file://"@)
    ||| starts(url, "ws://"@)
    ||| starts(url, "wss://"@)
}

/// A URL with a known scheme stays; anything else is a path of the bundled
/// content, served through the `pywui` scheme.
pub open spec fn valid_url(url: Seq<char>) -> Seq<char> {
    if has_known_scheme(url) {
        url
    } else {
        "pywui://pywui/"@ + url
    }
}

/// Gives a URL without a known scheme the `pywui://pywui/` prefix.
pub fn ensure_valid_url(url: Option<String>) -> (r: Option<String>)
    ensures
        opt_view(r) == match url {
            Some(u) => Some(valid_url(u@)),
            None => None,
        },
{
    match url {
        Some(u) => {
            let known = starts_with(u.as_str(), "http://") || starts_with(u.as_str(), "https://")
                || starts_with(u.as_str(), "ftp://") || starts_with(u.as_str(), "file://")
                || starts_with(u.as_str(), "ws://") || starts_with(u.as_str(), "wss://");
            if known {
                Some(u)
            } else {
                let mut v = String::from_str("pywui://pywui/");
                v.append(u.as_str());
                Some(v)
            }
        },
        None => None,
    }
}

impl WebViewAttributesConfig {
    /// The configured attributes with every default filled in.
    pub fn settings(&self) -> (r: WebViewSettings)
        ensures
            opt_view(r.user_agent) == opt_view(self.user_agent),
            r.visible == or_default(self.visible, true),
            r.transparent == or_default(self.transparent, false),
            r.background_color == self.background_color,
            opt_view(r.url) == match self.url {
                Some(u) => Some(valid_url(u@)),
                None => None,
            },
            r.zoom_hotkeys_enabled == or_default(self.zoom_hotkeys_enabled, true),
            opt_view(r.html) == opt_view(self.html),
            r.clipboard == or_default(self.clipboard, false),
            r.devtools == or_default(self.devtools, true),
            r.accept_first_mouse == or_default(self.accept_first_mouse, false),
            r.back_forward_navigation_gestures == or_default(
                self.back_forward_navigation_gestures,
                false,
            ),
            r.incognito == or_default(self.incognito, false),
            r.autoplay == or_default(self.autoplay, false),
            r.focused == or_default(self.focused, false),
    {
        WebViewSettings {
            user_agent: copy_opt(&self.user_agent),
            visible: match self.visible {
                Some(v) => v,
                None => true,
            },
            transparent: match self.transparent {
                Some(v) => v,
                None => false,
            },
            background_color: self.background_color,
            url: ensure_valid_url(copy_opt(&self.url)),
            zoom_hotkeys_enabled: match self.zoom_hotkeys_enabled {
                Some(v) => v,
                None => true,
            },
            html: copy_opt(&self.html),
            clipboard: match self.clipboard {
                Some(v) => v,
                None => false,
            },
            devtools: match self.devtools {
                Some(v) => v,
                None => true,
            },
            accept_first_mouse: match self.accept_first_mouse {
                Some(v) => v,
                None => false,
            },
            back_forward_navigation_gestures: match self.back_forward_navigation_gestures {
                Some(v) => v,
                None => false,
            },
            incognito: match self.incognito {
                Some(v) => v,
                None => false,
            },
            autoplay: match self.autoplay {
                Some(v) => v,
                None => false,
            },
            focused: match self.focused {
                Some(v) => v,
                None => false,
            },
        }
    }
}

impl WindowAttributesConfig {
    /// The configured attributes with every default filled in.
    pub fn settings(&self) -> (r: WindowSettings)
        ensures
            r.title@ == match self.title {
                Some(t) => t@,
                None => "Window"@,
            },
            r.width == or_default(self.width, 800),
            r.height == or_default(self.height, 600),
            r.decorations == or_default(self.decorations, true),
            r.transparent == or_default(self.transparent, false),
            r.background_color == or_default(self.background_color, (255u8, 255u8, 255u8, 0u8)),
            r.always_on_top == or_default(self.always_on_top, false),
            r.always_on_bottom == or_default(self.always_on_bottom, false),
            r.closable == or_default(self.closable, true),
            r.maximized == or_default(self.maximized, false),
            r.maximizable == or_default(self.maximizable, true),
            r.minimizable == or_default(self.minimizable, true),
            r.focused == or_default(self.focused, true),
            r.resizable == or_default(self.resizable, true),
            r.visible == or_default(self.visible, true),
            r.content_protection == or_default(self.content_protection, false),
            r.visible_on_all_workspaces == or_default(self.visible_on_all_workspaces, false),
    {
        WindowSettings {
            title: match &self.title {
                Some(t) => t.clone(),
                None => String::from_str("Window"),
            },
            width: match self.width {
                Some(v) => v,
                None => 800,
            },
            height: match self.height {
                Some(v) => v,
                None => 600,
            },
            decorations: match self.decorations {
                Some(v) => v,
                None => true,
            },
            transparent: match self.transparent {
                Some(v) => v,
                None => false,
            },
            background_color: match self.background_color {
                Some(v) => v,
                None => (255, 255, 255, 0),
            },
            always_on_top: match self.always_on_top {
                Some(v) => v,
                None => false,
            },
            always_on_bottom: match self.always_on_bottom {
                Some(v) => v,
                None => false,
            },
            closable: match self.closable {
                Some(v) => v,
                None => true,
            },
            maximized: match self.maximized {
                Some(v) => v,
                None => false,
            },
            maximizable: match self.maximizable {
                Some(v) => v,
                None => true,
            },
            minimizable: match self.minimizable {
                Some(v) => v,
                None => true,
            },
            focused: match self.focused {
                Some(v) => v,
                None => true,
            },
            resizable: match self.resizable {
                Some(v) => v,
                None => true,
            },
            visible: match self.visible {
                Some(v) => v,
                None => true,
            },
            content_protection: match self.content_protection {
                Some(v) => v,
                None => false,
            },
            visible_on_all_workspaces: match self.visible_on_all_workspaces {
                Some(v) => v,
                None => false,
            },
        }
    }

    /// Where the window's surface starts: its configured URL (see
    /// [`ensure_valid_url`]), else `dev_path` as it is.
    pub fn start_url(&self, dev_path: &str) -> (r: String)
        ensures
            r@ == match self.webview {
                Some(w) => match w.url {
                    Some(u) => valid_url(u@),
                    None => dev_path@,
                },
                None => dev_path@,
            },
    {
        let configured = match &self.webview {
            Some(w) => ensure_valid_url(copy_opt(&w.url)),
            None => None,
        };
        match configured {
            Some(u) => u,
            None => string_of(&chars_of(dev_path)),
        }
    }
}

} // verus!
