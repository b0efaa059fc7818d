use base64::Engine;
use photostore::folders::{default_config, validate_folder, FolderError};
use photostore::service::{
    auth_token, is_authorized, served_image_path, upload_outcome, UploadError,
};

#[test]
fn auth_token_matches_base64_crate() {
    let direct = base64::engine::general_purpose::STANDARD.encode("secret".as_bytes());
    assert_eq!(auth_token("secret"), direct);
    assert_eq!(auth_token("secret"), "c2VjcmV0".to_string());
}

#[test]
fn authorization_requires_exact_bearer_header() {
    let token = auth_token("secret");
    let good = format!("Bearer {}", token);
    assert!(is_authorized(Some(&good), &token));
    let wrong = format!("Bearer {}x", token);
    assert!(!is_authorized(Some(&wrong), &token));
    let unprefixed = token.clone();
    assert!(!is_authorized(Some(&unprefixed), &token));
    assert!(!is_authorized(None, &token));
}

#[test]
fn served_path_prefixes_api_route() {
    assert_eq!(
        served_image_path("abc.webp"),
        "/api/image/abc.webp".to_string()
    );
}

#[test]
fn upload_outcomes_in_stage_order() {
    assert_eq!(
        upload_outcome(false, true, true, true),
        Err(UploadError::Unauthorized)
    );
    assert_eq!(
        upload_outcome(true, false, true, true),
        Err(UploadError::MissingFilename)
    );
    assert_eq!(
        upload_outcome(true, true, false, true),
        Err(UploadError::SaveFailed)
    );
    assert_eq!(
        upload_outcome(true, true, true, false),
        Err(UploadError::ThumbnailFailed)
    );
    assert_eq!(upload_outcome(true, true, true, true), Ok(()));
}

#[test]
fn folder_validation_verdicts() {
    assert_eq!(
        validate_folder(false, false, false, false),
        Err(FolderError::MissingRoot)
    );
    assert_eq!(
        validate_folder(true, true, false, true),
        Err(FolderError::InvalidLayout)
    );
    assert_eq!(
        validate_folder(true, false, true, true),
        Err(FolderError::InvalidLayout)
    );
    assert_eq!(
        validate_folder(true, true, true, false),
        Err(FolderError::InvalidLayout)
    );
    assert_eq!(validate_folder(true, true, true, true), Ok(()));
}

#[test]
fn default_config_values() {
    let c = default_config();
    assert_eq!(c.host, "127.0.0.1".to_string());
    assert_eq!(c.port, 8080);
    assert_eq!(c.image_folder, "./images".to_string());
    assert_eq!(c.pwd, "secret".to_string());
}
