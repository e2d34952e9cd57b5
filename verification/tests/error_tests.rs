use nova_library::error::ServiceError;

#[test]
fn errors_render_their_label_and_message() {
    assert_eq!(
        ServiceError::ProviderError("down".to_string()).to_string(),
        "Provider error: down".to_string()
    );
    assert_eq!(ServiceError::NotFound("a.mp3".to_string()).to_string(), "Not found: a.mp3".to_string());
    assert_eq!(
        ServiceError::AuthenticationError("token".to_string()).to_string(),
        "Authentication error: token".to_string()
    );
    assert_eq!(
        ServiceError::NetworkError("timeout".to_string()).to_string(),
        "Network error: timeout".to_string()
    );
    assert_eq!(ServiceError::Unreadable("denied".to_string()).to_string(), "Unreadable: denied".to_string());
    assert_eq!(
        ServiceError::UnsupportedFormat("no codec".to_string()).to_string(),
        "Unsupported format: no codec".to_string()
    );
    assert_eq!(ServiceError::StorageError("busy".to_string()).to_string(), "Storage error: busy".to_string());
    assert_eq!(ServiceError::WatchError("limit".to_string()).to_string(), "Watch error: limit".to_string());
}

#[test]
fn an_error_with_an_empty_message_renders_its_label() {
    assert_eq!(ServiceError::NotFound(String::new()).to_string(), "Not found: ".to_string());
}
