use vibe_kanban::frontend::{asset_path, asset_response, AssetResponse};
use vibe_kanban::frontend::{
    cache_control_for_path, is_hashed_asset, DEFAULT_CACHE_CONTROL, HASHED_CACHE_CONTROL,
};

#[test]
fn hashed_assets_use_long_cache_control() {
    assert!(is_hashed_asset("assets/index-C2bHdHKB.js"));
    assert_eq!(
        cache_control_for_path("assets/index-C2bHdHKB.js"),
        HASHED_CACHE_CONTROL
    );
}

#[test]
fn non_hashed_assets_use_short_cache_control() {
    assert!(!is_hashed_asset("ide/vscode-light.svg"));
    assert_eq!(
        cache_control_for_path("ide/vscode-light.svg"),
        DEFAULT_CACHE_CONTROL
    );
    assert_eq!(cache_control_for_path("index.html"), DEFAULT_CACHE_CONTROL);
}

#[test]
fn hash_part_needs_eight_alphanumeric_characters() {
    assert!(!is_hashed_asset("assets/index-C2bHdHK.js"));
    assert!(is_hashed_asset("assets/index-C2bHdHK1.js"));
    assert!(!is_hashed_asset("assets/index-C2bH_dHKB.js"));
    assert!(!is_hashed_asset("assets/indexC2bHdHKB.js"));
    assert!(!is_hashed_asset("assets/index-C2bHdHKB"));
}

#[test]
fn file_name_skips_trailing_separators_and_dot_components() {
    assert!(is_hashed_asset("assets/index-C2bHdHKB.js/"));
    assert!(is_hashed_asset("assets/index-C2bHdHKB.js/."));
    assert!(!is_hashed_asset("assets/index-C2bHdHKB.js/.."));
    assert!(!is_hashed_asset(""));
    assert!(!is_hashed_asset("/"));
}

#[test]
fn asset_requests_are_answered() {
    assert_eq!(asset_path("//assets/app.js"), "assets/app.js");
    assert_eq!(asset_path("index.html"), "index.html");
    assert_eq!(
        asset_response("assets/app-abcdef12.js", true, true),
        AssetResponse::Asset {
            content_type: "text/javascript".to_string(),
            cache_control: "public, max-age=31536000, immutable",
        }
    );
    assert_eq!(
        asset_response("logo.PNG", true, false),
        AssetResponse::Asset {
            content_type: "image/png".to_string(),
            cache_control: "public, max-age=300",
        }
    );
    assert_eq!(
        asset_response("LICENSE", true, false),
        AssetResponse::Asset {
            content_type: "application/octet-stream".to_string(),
            cache_control: "public, max-age=300",
        }
    );
    assert_eq!(
        asset_response("tasks/42", false, true),
        AssetResponse::Index { cache_control: "public, max-age=300" }
    );
    assert_eq!(asset_response("tasks/42", false, false), AssetResponse::NotFound);
}
