use aush::hooks::{HookManager, ShellHook};

#[test]
fn test_precmd_always_includes_rush_precmd() {
    let mgr = HookManager::new();
    let fns = mgr.precmd_functions();
    assert!(fns.contains(&"rush_precmd".to_string()));
}

#[test]
fn test_preexec_always_includes_rush_preexec() {
    let mgr = HookManager::new();
    let fns = mgr.preexec_functions();
    assert!(fns.contains(&"rush_preexec".to_string()));
}

#[test]
fn test_add_hook_registers_function() {
    let mut mgr = HookManager::new();
    mgr.add_hook(ShellHook::Precmd, "my_precmd".to_string());
    assert!(mgr.precmd_functions().contains(&"my_precmd".to_string()));
}

#[test]
fn test_add_hook_no_duplicate() {
    let mut mgr = HookManager::new();
    mgr.add_hook(ShellHook::Precmd, "my_hook".to_string());
    mgr.add_hook(ShellHook::Precmd, "my_hook".to_string());
    let count = mgr.precmd_functions().iter().filter(|f| f.as_str() == "my_hook").count();
    assert_eq!(count, 1);
}

#[test]
fn test_remove_hook() {
    let mut mgr = HookManager::new();
    mgr.add_hook(ShellHook::Preexec, "my_preexec".to_string());
    mgr.remove_hook(&ShellHook::Preexec, "my_preexec");
    assert!(!mgr.preexec_functions().contains(&"my_preexec".to_string()));
}

#[test]
fn test_remove_well_known_name_not_in_extra_list() {
    let mut mgr = HookManager::new();
    mgr.remove_hook(&ShellHook::Precmd, "rush_precmd");
    assert!(mgr.precmd_functions().contains(&"rush_precmd".to_string()));
}

#[test]
fn hook_functions_keep_registration_order_after_well_known_name() {
    let mut mgr = HookManager::new();
    mgr.add_hook(ShellHook::Precmd, "b".to_string());
    mgr.add_hook(ShellHook::Precmd, "rush_precmd".to_string());
    mgr.add_hook(ShellHook::Precmd, "a".to_string());
    assert_eq!(
        mgr.precmd_functions(),
        vec!["rush_precmd".to_string(), "b".to_string(), "a".to_string()]
    );
    assert_eq!(mgr.preexec_functions(), vec!["rush_preexec".to_string()]);
}

#[test]
fn hook_events_are_independent() {
    let mut mgr = HookManager::new();
    mgr.add_hook(ShellHook::Preexec, "x".to_string());
    mgr.remove_hook(&ShellHook::Precmd, "x");
    assert!(mgr.preexec_functions().contains(&"x".to_string()));
    assert!(!mgr.precmd_functions().contains(&"x".to_string()));
    let copy = mgr.clone();
    assert_eq!(copy.preexec_functions(), mgr.preexec_functions());
}
