use std::collections::HashMap;
use std::sync::Arc;
use tauri_runtime_cef::scripts::{
    initialization_scripts_extra_info, initialization_scripts_from_extra_info,
    register_browser_initialization_scripts, scripts_for_browser,
    unregister_browser_initialization_scripts, ExtraInfo, TauriRenderProcessHandler,
    ALL_FRAME_INITIALIZATION_SCRIPTS_KEY, INITIALIZATION_SCRIPT_URL,
};

fn scripts(source: &str) -> Arc<Vec<String>> {
    Arc::new(vec![source.to_string()])
}

fn info(sources: &[&str]) -> Option<ExtraInfo> {
    initialization_scripts_extra_info(&sources.to_vec())
}

#[test]
fn cross_origin_browser_replacement_retains_scripts_when_old_browser_is_destroyed() {
    let mut browser_initialization_scripts = HashMap::new();

    register_browser_initialization_scripts(
        &mut browser_initialization_scripts,
        7,
        scripts("initial"),
    );
    register_browser_initialization_scripts(
        &mut browser_initialization_scripts,
        7,
        scripts("replacement"),
    );
    unregister_browser_initialization_scripts(&mut browser_initialization_scripts, 7);

    let state = browser_initialization_scripts.get(&7).unwrap();
    assert_eq!(state.active_browser_count, 1);
    assert_eq!(*state.scripts, ["replacement"]);
}

#[test]
fn final_browser_destruction_removes_initialization_scripts() {
    let mut browser_initialization_scripts = HashMap::new();

    register_browser_initialization_scripts(
        &mut browser_initialization_scripts,
        7,
        scripts("initial"),
    );
    unregister_browser_initialization_scripts(&mut browser_initialization_scripts, 7);

    assert!(!browser_initialization_scripts.contains_key(&7));
}

#[test]
fn a_replacement_without_scripts_keeps_the_earlier_ones() {
    let mut entries = HashMap::new();
    register_browser_initialization_scripts(&mut entries, 7, scripts("initial"));
    register_browser_initialization_scripts(&mut entries, 7, Arc::new(Vec::new()));
    assert_eq!(entries.get(&7).unwrap().active_browser_count, 2);
    assert_eq!(*entries.get(&7).unwrap().scripts, ["initial"]);
    unregister_browser_initialization_scripts(&mut entries, 7);
    unregister_browser_initialization_scripts(&mut entries, 7);
    assert!(entries.is_empty());
}

#[test]
fn a_browser_without_scripts_is_not_entered() {
    let mut entries = HashMap::new();
    register_browser_initialization_scripts(&mut entries, 7, Arc::new(Vec::new()));
    assert!(entries.is_empty());
    unregister_browser_initialization_scripts(&mut entries, 7);
    assert!(entries.is_empty());
}

#[test]
fn identifiers_do_not_affect_each_other() {
    let mut entries = HashMap::new();
    register_browser_initialization_scripts(&mut entries, 7, scripts("seven"));
    register_browser_initialization_scripts(&mut entries, 8, scripts("eight"));
    unregister_browser_initialization_scripts(&mut entries, 7);
    assert!(scripts_for_browser(&entries, 7).is_none());
    assert_eq!(*scripts_for_browser(&entries, 8).unwrap(), ["eight"]);
}

#[test]
fn looking_up_scripts_shares_them() {
    let mut entries = HashMap::new();
    let kept = scripts("initial");
    register_browser_initialization_scripts(&mut entries, 7, Arc::clone(&kept));
    assert!(Arc::ptr_eq(&scripts_for_browser(&entries, 7).unwrap(), &kept));
}

#[test]
fn packed_scripts_come_out_again() {
    let packed = info(&["one", "", "three"]);
    assert!(packed.is_some());
    assert_eq!(*initialization_scripts_from_extra_info(packed), ["one", "", "three"]);
    assert!(info(&[]).is_none());
    assert!(initialization_scripts_from_extra_info(None).is_empty());
    assert!(initialization_scripts_from_extra_info(Some(ExtraInfo { scripts: None })).is_empty());
}

#[test]
fn child_frames_get_the_scripts_of_their_browser() {
    let mut handler = TauriRenderProcessHandler::new();
    handler.on_browser_created(Some(7), info(&["one", "two"]));
    handler.on_browser_created(None, info(&["lost"]));

    let child = handler.on_context_created(Some(7), Some(0), true);
    assert!(child.install_ipc);
    assert_eq!(*child.scripts.unwrap(), ["one", "two"]);

    let main = handler.on_context_created(Some(7), Some(1), true);
    assert!(main.install_ipc);
    assert!(main.scripts.is_none());

    assert!(handler.on_context_created(None, Some(0), true).scripts.is_none());
    assert!(handler.on_context_created(Some(7), None, true).scripts.is_none());
    assert!(handler.on_context_created(Some(8), Some(0), true).scripts.is_none());

    let nowhere = handler.on_context_created(Some(7), Some(0), false);
    assert!(!nowhere.install_ipc);
    assert!(nowhere.scripts.is_none());

    handler.on_browser_destroyed(None);
    assert!(handler.on_context_created(Some(7), Some(0), true).scripts.is_some());
    handler.on_browser_destroyed(Some(7));
    assert!(handler.on_context_created(Some(7), Some(0), true).scripts.is_none());
}

#[test]
fn names_of_the_script_channel() {
    assert_eq!(ALL_FRAME_INITIALIZATION_SCRIPTS_KEY, "tauri:all-frame-initialization-scripts");
    assert_eq!(INITIALIZATION_SCRIPT_URL, "tauri://initialization-script");
}
