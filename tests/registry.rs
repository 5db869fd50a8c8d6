use arena_shooter::audio::{AddHandle, AudioController, GetHandle};

#[test]
fn registered_handle_is_found_by_name() {
    let mut c: AudioController<u32> = AudioController::new();
    c.add_handle("slam", 4);
    c.add_handle("laser", 9);
    let h = c.get_handle("laser").unwrap();
    assert_eq!(h.name, "laser");
    assert_eq!(h.handle, 9);
    let h = c.get_handle("slam").unwrap();
    assert_eq!(h.name, "slam");
    assert_eq!(h.handle, 4);
}

#[test]
fn unknown_name_gives_none() {
    let mut c: AudioController<u32> = AudioController::new();
    assert!(c.get_handle("slam").is_none());
    c.add_handle("slam", 4);
    assert!(c.get_handle("sla").is_none());
    assert!(c.get_handle("").is_none());
}

#[test]
fn second_registration_under_a_name_is_ignored() {
    let mut c: AudioController<String> = AudioController::new();
    c.add_handle("music", "first".to_string());
    c.add_handle("music", "second".to_string());
    assert_eq!(c.handles.len(), 1);
    assert_eq!(c.get_handle("music").unwrap().handle, "first");
}

#[test]
fn lookup_returns_first_entry_under_a_name() {
    let mut c: AudioController<u32> = AudioController::new();
    c.add_handle("bonk", 1);
    c.handles.push(arena_shooter::audio::NamedAudioHandle { name: "bonk".to_string(), handle: 2 });
    assert_eq!(c.get_handle("bonk").unwrap().handle, 1);
}
