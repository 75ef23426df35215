use jarvis_core::config::{AssistantState, JarvisEvent};

#[test]
fn test_event_is_clone() {
    let e = JarvisEvent::WakeWordDetected;
    let _ = e.clone();
}

#[test]
fn test_event_is_debug() {
    let e = JarvisEvent::SpeechRecognized { text: "test".into() };
    assert!(format!("{:?}", e).contains("SpeechRecognized"));
}

#[test]
fn test_event_command_executed() {
    let e = JarvisEvent::CommandExecuted { id: "open_browser".into(), success: true };
    match e {
        JarvisEvent::CommandExecuted { id, success } => {
            assert_eq!(id, "open_browser");
            assert!(success);
        }
        _ => panic!("wrong variant"),
    }
}

#[test]
fn test_error_event_has_message() {
    let e = JarvisEvent::Error { message: "oops".into() };
    match e {
        JarvisEvent::Error { message } => assert_eq!(message, "oops"),
        _ => panic!("wrong variant"),
    }
}

#[test]
fn state_changed_event_carries_state() {
    let e = JarvisEvent::StateChanged { state: AssistantState::Listening };
    assert_eq!(e.clone(), JarvisEvent::StateChanged { state: AssistantState::Listening });
    assert_ne!(e, JarvisEvent::StateChanged { state: AssistantState::Idle });
}
