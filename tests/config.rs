use pywui::assets::{asset_path, asset_reply, file_extension, mime_type, AssetBody, AssetRead};
use pywui::config::{ensure_valid_url, Icons, WebViewAttributesConfig, WindowAttributesConfig};
use pywui::icon::{window_icon, IconError};

fn s(text: &str) -> String {
    text.to_string()
}

fn empty_window() -> WindowAttributesConfig {
    WindowAttributesConfig {
        label: None,
        resizable: None,
        minimizable: None,
        maximizable: None,
        closable: None,
        title: None,
        width: None,
        height: None,
        maximized: None,
        visible: None,
        transparent: None,
        decorations: None,
        always_on_top: None,
        always_on_bottom: None,
        focused: None,
        content_protection: None,
        visible_on_all_workspaces: None,
        background_color: None,
        webview: None,
    }
}

fn empty_webview() -> WebViewAttributesConfig {
    WebViewAttributesConfig {
        user_agent: None,
        visible: None,
        transparent: None,
        background_color: None,
        url: None,
        zoom_hotkeys_enabled: None,
        html: None,
        initialization_scripts: None,
        clipboard: None,
        devtools: None,
        accept_first_mouse: None,
        back_forward_navigation_gestures: None,
        incognito: None,
        autoplay: None,
        focused: None,
    }
}

#[test]
fn urls_with_a_known_scheme_stay() {
    for u in ["http://a", "https://a/b", "ftp://x", "file:///tmp/i.html", "ws://h", "wss://h"] {
        assert_eq!(ensure_valid_url(Some(s(u))), Some(s(u)));
    }
}

#[test]
fn other_urls_go_through_the_bundled_scheme() {
    assert_eq!(ensure_valid_url(Some(s("index.html"))), Some(s("pywui://pywui/index.html")));
    assert_eq!(ensure_valid_url(Some(s("httpx://a"))), Some(s("pywui://pywui/httpx://a")));
    assert_eq!(ensure_valid_url(None), None);
}

#[test]
fn icon_per_operating_system() {
    let icons = Icons { linux: Some(s("l.png")), macos: Some(s("m.icns")), windows: None };
    assert_eq!(icons.get_for_current_os("linux"), Some(s("l.png")));
    assert_eq!(icons.get_for_current_os("macos"), Some(s("m.icns")));
    assert_eq!(icons.get_for_current_os("windows"), None);
    assert_eq!(icons.get_for_current_os("freebsd"), None);
}

#[test]
fn window_defaults() {
    let w = empty_window().settings();
    assert_eq!(w.title, "Window");
    assert_eq!((w.width, w.height), (800, 600));
    assert!(w.decorations && w.closable && w.maximizable && w.minimizable);
    assert!(w.focused && w.resizable && w.visible);
    assert!(!w.transparent && !w.always_on_top && !w.maximized);
    assert_eq!(w.background_color, (255, 255, 255, 0));
}

#[test]
fn window_configured_values_win() {
    let mut c = empty_window();
    c.title = Some(s("Hello"));
    c.width = Some(1024);
    c.resizable = Some(false);
    let w = c.settings();
    assert_eq!(w.title, "Hello");
    assert_eq!(w.width, 1024);
    assert_eq!(w.height, 600);
    assert!(!w.resizable);
}

#[test]
fn webview_defaults_and_url() {
    let mut c = empty_webview();
    c.url = Some(s("app/index.html"));
    let v = c.settings();
    assert_eq!(v.url, Some(s("pywui://pywui/app/index.html")));
    assert!(v.visible && v.devtools && v.zoom_hotkeys_enabled);
    assert!(!v.transparent && !v.clipboard && !v.incognito && !v.autoplay && !v.focused);
}

#[test]
fn start_url_falls_back_to_dev_path() {
    let mut w = empty_window();
    assert_eq!(w.start_url("http://localhost:5173"), "http://localhost:5173");
    let mut v = empty_webview();
    v.url = Some(s("https://example.org"));
    w.webview = Some(v);
    assert_eq!(w.start_url("http://localhost:5173"), "https://example.org");
}

#[test]
fn asset_paths_and_types() {
    assert_eq!(asset_path("/"), "index.html");
    assert_eq!(asset_path("/js/app.js"), "js/app.js");
    assert_eq!(mime_type("js/app.js"), "text/javascript");
    assert_eq!(mime_type("index.html"), "text/html");
    assert_eq!(mime_type("a/photo.JPEG"), "application/octet-stream");
    assert_eq!(mime_type("a/photo.jpeg"), "image/jpeg");
    assert_eq!(mime_type("data.json"), "application/json");
    assert_eq!(mime_type(".hidden"), "application/octet-stream");
    assert_eq!(mime_type("dir.d/file"), "application/octet-stream");
    assert_eq!(file_extension("a/b.tar.gz"), Some(s("gz")));
}

#[test]
fn asset_replies() {
    let missing = asset_reply("/nope.css", AssetRead::Missing);
    assert_eq!((missing.status, missing.content_type.as_str()), (404, "text/plain"));
    assert!(matches!(missing.body, AssetBody::Message(ref m) if m == "File not found"));
    let failed = asset_reply("/x.css", AssetRead::Failed);
    assert_eq!(failed.status, 500);
    assert!(matches!(failed.body, AssetBody::Message(ref m) if m == "Failed to read the file"));
    let ok = asset_reply("/", AssetRead::Content(vec![60, 104]));
    assert_eq!((ok.status, ok.content_type.as_str()), (200, "text/html"));
    assert!(matches!(ok.body, AssetBody::Content(ref b) if b == &vec![60u8, 104]));
    let wasm = asset_reply("/m/app.wasm", AssetRead::Content(vec![]));
    assert_eq!(wasm.content_type, "application/wasm");
}

#[test]
fn icon_path_falls_back_to_the_default() {
    let icons = Icons { linux: Some(s("l.png")), macos: None, windows: None };
    assert_eq!(pywui::icon::icon_path(&icons, "linux"), "l.png");
    assert_eq!(pywui::icon::icon_path(&icons, "macos"), "pywui.png");
}

#[test]
fn icon_decodes_to_rgba() {
    let mut img = image::RgbaImage::new(2, 1);
    img.put_pixel(0, 0, image::Rgba([1, 2, 3, 4]));
    img.put_pixel(1, 0, image::Rgba([5, 6, 7, 8]));
    let mut png: Vec<u8> = Vec::new();
    img.write_to(&mut std::io::Cursor::new(&mut png), image::ImageFormat::Png).unwrap();
    let icon = window_icon(Some(png)).ok().unwrap();
    assert_eq!((icon.width, icon.height), (2, 1));
    assert_eq!(icon.rgba, vec![1, 2, 3, 4, 5, 6, 7, 8]);
}

#[test]
fn icon_errors() {
    assert_eq!(window_icon(None).err(), Some(IconError::Unreadable));
    assert_eq!(window_icon(Some(vec![1, 2, 3])).err(), Some(IconError::Undecodable));
}
