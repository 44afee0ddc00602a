use nephelios::github::modify_github_url;
use nephelios::metadata::{
    any_running, app_info_from_labels, excluded_context_dir, image_ref, lookup_label,
    remote_image_ref, scale_arg, service_name, sort_apps_by_created_desc, status_label,
    swarm_active, swarm_name_from_labels, AppInfo, AppMetadata,
};
use nephelios::text::{find_str, str_contains, str_eq, u32_to_string};

#[test]
fn github_url_is_rewritten_to_the_platform_account() {
    assert_eq!(
        modify_github_url("https://github.com/user/repo"),
        "https://damien-mathieu1@github.com/user/repo"
    );
}

#[test]
fn non_github_url_is_returned_unchanged() {
    assert_eq!(
        modify_github_url("https://gitlab.com/user/repo"),
        "https://gitlab.com/user/repo"
    );
}

#[test]
fn derived_names() {
    assert_eq!(image_ref("demo"), "demo:latest");
    assert_eq!(remote_image_ref("demo"), "registry:5000/demo");
    assert_eq!(service_name("demo"), "nephelios_demo");
    assert_eq!(scale_arg("demo", 0), "nephelios_demo=0");
    assert_eq!(scale_arg("demo", 37), "nephelios_demo=37");
}

#[test]
fn decimal_rendering() {
    assert_eq!(u32_to_string(0), "0");
    assert_eq!(u32_to_string(7), "7");
    assert_eq!(u32_to_string(40), "40");
    assert_eq!(u32_to_string(4294967295), "4294967295");
}

#[test]
fn text_search() {
    assert!(str_contains("Swarm: active\nRuntimes: runc", "Swarm: active"));
    assert!(!str_contains("Swarm: inactive", "Swarm: active"));
    assert_eq!(find_str("abcabc", "ca"), Some(2));
    assert_eq!(find_str("abcabc", "zz"), None);
    assert!(str_eq("same", "same"));
    assert!(!str_eq("same", "other"));
    assert!(swarm_active("Server:\n Swarm: active\n"));
    assert!(!swarm_active("Server:\n Swarm: inactive\n"));
}

#[test]
fn context_exclusions() {
    assert!(excluded_context_dir(".git"));
    assert!(excluded_context_dir("node_modules"));
    assert!(!excluded_context_dir("src"));
}

#[test]
fn metadata_derivation_and_labels() {
    let m = AppMetadata::new(
        "demo".to_string(),
        "nodejs".to_string(),
        "https://github.com/user/repo".to_string(),
    );
    assert_eq!(m.domain, "demo.localhost");
    let labels = m.to_labels();
    assert_eq!(labels.len(), 5);
    assert_eq!(labels[0], ("com.myapp.name".to_string(), "demo".to_string()));
    assert_eq!(labels[1], ("com.myapp.type".to_string(), "nodejs".to_string()));
    assert_eq!(
        labels[2],
        ("com.myapp.github_url".to_string(), "https://github.com/user/repo".to_string())
    );
    assert_eq!(labels[3], ("com.myapp.domain".to_string(), "demo.localhost".to_string()));
    assert_eq!(labels[4].0, "com.myapp.created_at");
    assert_eq!(labels[4].1, m.created_at);
}

fn platform_labels() -> Vec<(String, String)> {
    vec![
        ("com.docker.stack.namespace".to_string(), "nephelios".to_string()),
        ("com.myapp.name".to_string(), "demo".to_string()),
        ("com.myapp.type".to_string(), "nodejs".to_string()),
        ("com.myapp.github_url".to_string(), "https://github.com/user/repo".to_string()),
        ("com.myapp.domain".to_string(), "demo.localhost".to_string()),
        ("com.myapp.created_at".to_string(), "2024-01-01T00:00:00+00:00".to_string()),
    ]
}

#[test]
fn app_info_is_read_from_platform_labels() {
    let mut labels = platform_labels();
    labels.push(("com.docker.swarm.task.name".to_string(), "nephelios_demo.1.x".to_string()));
    let id = "abc123".to_string();
    let info = app_info_from_labels(&labels, &id, "running".to_string()).unwrap();
    assert_eq!(info.app_name, "demo");
    assert_eq!(info.app_type, "nodejs");
    assert_eq!(info.github_url, "https://github.com/user/repo");
    assert_eq!(info.domain, "demo.localhost");
    assert_eq!(info.created_at, "2024-01-01T00:00:00+00:00");
    assert_eq!(info.status, "running");
    assert_eq!(info.swarm_task_name.as_deref(), Some("nephelios_demo.1.x"));
}

#[test]
fn container_id_stands_in_for_a_missing_task_label() {
    let labels = platform_labels();
    let id = "abc123".to_string();
    let info = app_info_from_labels(&labels, &id, "unknown".to_string()).unwrap();
    assert_eq!(info.swarm_task_name.as_deref(), Some("abc123"));
}

#[test]
fn foreign_containers_are_ignored() {
    let id = "abc123".to_string();
    // No stack namespace at all.
    let mut labels = platform_labels();
    labels.remove(0);
    assert!(app_info_from_labels(&labels, &id, "running".to_string()).is_none());
    // A different stack's namespace.
    let mut labels = platform_labels();
    labels[0].1 = "otherstack".to_string();
    assert!(app_info_from_labels(&labels, &id, "running".to_string()).is_none());
    // A required label missing.
    let mut labels = platform_labels();
    labels.retain(|(k, _)| k != "com.myapp.domain");
    assert!(app_info_from_labels(&labels, &id, "running".to_string()).is_none());
}

#[test]
fn label_lookup_returns_the_first_match() {
    let labels = vec![
        ("k".to_string(), "first".to_string()),
        ("k".to_string(), "second".to_string()),
    ];
    assert_eq!(lookup_label(&labels, "k").as_deref(), Some("first"));
    assert_eq!(lookup_label(&labels, "missing"), None);
}

#[test]
fn swarm_names_prefer_the_task_label() {
    let task = vec![
        ("com.docker.swarm.task.name".to_string(), "t1".to_string()),
        ("com.docker.swarm.service.name".to_string(), "s1".to_string()),
    ];
    assert_eq!(swarm_name_from_labels(&task).as_deref(), Some("t1"));
    let service = vec![("com.docker.swarm.service.name".to_string(), "s1".to_string())];
    assert_eq!(swarm_name_from_labels(&service).as_deref(), Some("s1"));
    assert_eq!(swarm_name_from_labels(&Vec::new()), None);
}

#[test]
fn status_reporting() {
    assert_eq!(status_label(true), "running");
    assert_eq!(status_label(false), "unknown");
    let states = vec![Some("exited".to_string()), None, Some("running".to_string())];
    assert!(any_running(&states));
    let states = vec![Some("exited".to_string()), None];
    assert!(!any_running(&states));
    assert!(!any_running(&Vec::new()));
}

#[test]
fn apps_sort_newest_first() {
    let entry = |name: &str, created: &str| AppInfo {
        app_name: name.to_string(),
        app_type: "nodejs".to_string(),
        github_url: "https://github.com/user/repo".to_string(),
        domain: format!("{}.localhost", name),
        created_at: created.to_string(),
        status: "running".to_string(),
        swarm_task_name: None,
    };
    let mut apps = vec![
        entry("old", "2023-05-01T00:00:00+00:00"),
        entry("new", "2024-03-02T10:00:00+00:00"),
        entry("mid", "2023-11-20T08:30:00+00:00"),
        entry("new-twin", "2024-03-02T10:00:00+00:00"),
    ];
    sort_apps_by_created_desc(&mut apps);
    let names: Vec<&str> = apps.iter().map(|a| a.app_name.as_str()).collect();
    assert_eq!(apps.len(), 4);
    assert!(names[0] == "new" || names[0] == "new-twin");
    assert!(names[1] == "new" || names[1] == "new-twin");
    assert_ne!(names[0], names[1]);
    assert_eq!(names[2], "mid");
    assert_eq!(names[3], "old");
}
