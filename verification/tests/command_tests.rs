use hyprsession::resolver::{
    extract_binary_name, handle_appimage, handle_flatpak, handle_nix_wrapped, handle_snap,
    handle_special_commands, resolve_command,
};

#[test]
fn test_extract_binary_name() {
    assert_eq!(extract_binary_name("firefox --new-window"), "firefox");
    assert_eq!(extract_binary_name("/usr/bin/firefox"), "firefox");
    assert_eq!(
        extract_binary_name("/nix/store/.firefox-wrapped"),
        ".firefox-wrapped"
    );
    assert_eq!(extract_binary_name("code"), "code");
}

#[test]
fn test_handle_nix_wrapped() {
    // Dot form inside a store path
    let cmd = "/nix/store/.firefox-wrapped --new-instance";
    let result = handle_nix_wrapped(cmd).unwrap();
    assert_eq!(result, "firefox --new-instance");

    // Hash-name form
    let cmd_no_args = "/nix/store/xyz789-code-wrapped";
    let result_no_args = handle_nix_wrapped(cmd_no_args).unwrap();
    assert_eq!(result_no_args, "code");

    // Hash-name form with arguments
    let cmd_full = "/nix/store/abc123-firefox-wrapped --new-window --private";
    let result_full = handle_nix_wrapped(cmd_full).unwrap();
    assert_eq!(result_full, "firefox --new-window --private");

    // Bare dot form without arguments
    let cmd_simple = ".chromium-wrapped";
    let result_simple = handle_nix_wrapped(cmd_simple).unwrap();
    assert_eq!(result_simple, "chromium");
}

#[test]
fn test_handle_flatpak() {
    let cmd = "flatpak run org.mozilla.firefox --new-window";
    let result = handle_flatpak(cmd).unwrap();
    assert_eq!(result, "org.mozilla.firefox");

    let cmd_with_flags = "flatpak run --app-id=org.gimp.GIMP --file=test.jpg";
    let result_with_flags = handle_flatpak(cmd_with_flags).unwrap();
    assert_eq!(result_with_flags, "org.gimp.GIMP");
}

#[test]
fn test_handle_appimage() {
    let cmd = "/home/user/Applications/Firefox.AppImage --profile test";
    let result = handle_appimage(cmd).unwrap();
    assert_eq!(result, "Firefox.AppImage");
}

#[test]
fn test_handle_snap() {
    let cmd = "/snap/firefox/current/usr/lib/firefox/firefox --new-window";
    let result = handle_snap(cmd).unwrap();
    assert_eq!(result, "firefox");
}

#[test]
fn test_wrapper_prefix_without_store_path() {
    assert_eq!(handle_nix_wrapped("abc-tool-wrapped").unwrap(), "tool");
    assert!(handle_nix_wrapped("firefox").is_none());
    assert!(handle_nix_wrapped("-wrapped").is_none());
}

#[test]
fn test_flatpak_misses() {
    assert!(handle_flatpak("firefox --new-window").is_none());
    assert!(handle_flatpak("flatpak run notanappid").is_none());
    assert!(handle_flatpak("flatpak list").is_none());
}

#[test]
fn test_appimage_and_snap_misses() {
    assert!(handle_appimage("/usr/bin/firefox").is_none());
    assert!(handle_appimage("/opt/.AppImage").is_none());
    assert!(handle_snap("/usr/bin/firefox").is_none());
    assert!(handle_snap("/snap//broken").is_none());
}

#[test]
fn test_special_commands_chain_order() {
    // The wrapper rewrite wins over the bundle rewrite.
    assert_eq!(
        handle_special_commands("/nix/store/aa-kitty-wrapped /data/App.AppImage"),
        "kitty /data/App.AppImage"
    );
    // A plain command passes through verbatim.
    assert_eq!(handle_special_commands("kitty --single-instance"), "kitty --single-instance");
    // The managed-tree rewrite extracts the package name.
    assert_eq!(handle_special_commands("/snap/spotify/77/bin/run"), "spotify");
}

#[test]
fn test_resolve_command_from_cmdline() {
    // NUL separators from the raw argument vector become spaces.
    let r = resolve_command(Some("firefox\0--new-window\0"), None, "", "");
    assert_eq!(r, "firefox --new-window");
    // The wrapper rewrite applies to the cleaned command line.
    let r = resolve_command(Some("/nix/store/h-vim-wrapped\0notes.txt"), None, "", "");
    assert_eq!(r, "vim notes.txt");
}

#[test]
fn test_resolve_command_fallbacks() {
    // The executable name is next after an unreadable command line.
    assert_eq!(resolve_command(None, Some("kitty"), "Ignored", ""), "kitty");
    // The class hint is lowercased; the wrapper did not pass it through.
    assert_eq!(resolve_command(None, None, "Firefox", "A Title"), "firefox");
    // The title hint is last before the placeholder.
    assert_eq!(resolve_command(None, None, "", "Emacs"), "emacs");
    assert_eq!(resolve_command(None, None, "", ""), "unknown");
    // An empty command line also falls back.
    assert_eq!(resolve_command(Some("\0\0"), None, "", "Code"), "code");
}
