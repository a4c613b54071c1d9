use todolist::Importance;
use todolist::Task;
use todolist::parse_tasks;
use todolist::serialize_tasks;

#[test]
fn serde_reads_what_we_write() {
    let list = vec![
        Task {
            description: "plain".to_string(),
            completed: false,
            importance: Importance::High,
        },
        Task {
            description: "a \"b\" \\ c\t\n\u{3} d é".to_string(),
            completed: true,
            importance: Importance::Low,
        },
    ];
    let text = serialize_tasks(&list);
    let v: serde_json::Value = serde_json::from_str(&text).unwrap();
    let arr = v.as_array().unwrap();
    assert_eq!(arr.len(), 2);
    assert_eq!(arr[0]["description"].as_str().unwrap(), "plain");
    assert_eq!(arr[0]["completed"].as_bool().unwrap(), false);
    assert_eq!(arr[0]["importance"].as_str().unwrap(), "HIGH");
    assert_eq!(arr[1]["description"].as_str().unwrap(), "a \"b\" \\ c\t\n\u{3} d é");
    assert_eq!(arr[1]["completed"].as_bool().unwrap(), true);
    assert_eq!(arr[1]["importance"].as_str().unwrap(), "LOW");
}

#[test]
fn we_read_what_serde_writes() {
    let compact = "[{\"description\":\"A \\u00e9 \\n\",\"completed\":true,\"importance\":\"MID\"}]";
    let v: serde_json::Value = serde_json::from_str(compact).unwrap();
    let pretty = serde_json::to_string_pretty(&v).unwrap();
    let back = parse_tasks(&pretty).unwrap();
    assert_eq!(back.len(), 1);
    assert_eq!(back[0].description, "A é \n");
    assert_eq!(back[0].completed, true);
    assert_eq!(back[0].importance, Importance::Mid);
    let direct = parse_tasks(compact).unwrap();
    assert_eq!(direct[0].description, "A é \n");
}

#[test]
fn pretty_shape_matches_serde() {
    // For descriptions without escapes, our pretty text is exactly what
    // serde_json pretty-prints for the same array, field order aside.
    let list = vec![Task {
        description: "A".to_string(),
        completed: false,
        importance: Importance::Low,
    }];
    let ours = serialize_tasks(&list);
    let v: serde_json::Value = serde_json::from_str(&ours).unwrap();
    let serde_pretty = serde_json::to_string_pretty(&v).unwrap();
    let w: serde_json::Value = serde_json::from_str(&serde_pretty).unwrap();
    assert_eq!(v, w);
    assert!(ours.starts_with("[\n  {\n    "));
    assert!(ours.ends_with("\n  }\n]"));
}
