use pluvia::ipc::{check_request, coordinate_param, import_destination_for, method_not_found_message, rpc_method, string_param, RequestOutcome, RpcMethod};
use pluvia::client::{join, reply_action, socket_path_from, PluviaClient, ReplyAction};
use pluvia::display::BackendType;
use pluvia::runtime::{base_skin_id, find_skin_key, qualified_skin_id, tick_due, DaemonState};

#[test]
fn socket_path_preference_order() {
    assert_eq!(socket_path_from(Some("/x.sock".into()), Some("/run".into()), None, None), "/x.sock");
    assert_eq!(socket_path_from(None, Some("/run/user/1000".into()), None, None), "/run/user/1000/pluvia.sock");
    assert_eq!(socket_path_from(None, None, Some("/run/user/7/".into()), Some("/home/a".into())), "/run/user/7/pluvia.sock");
    assert_eq!(socket_path_from(None, None, None, Some("/home/a".into())), "/home/a/.cache/pluvia/pluvia.sock");
    assert_eq!(socket_path_from(None, None, None, None), "/tmp/pluvia.sock");
    assert_eq!(join("", "a"), "a");
}

#[test]
fn client_numbers_requests() {
    let mut c = PluviaClient::new("/tmp/p.sock");
    assert_eq!(c.socket_path(), "/tmp/p.sock");
    assert_eq!(c.next_request_id(), 1);
    assert_eq!(c.next_request_id(), 2);
}

#[test]
fn replies_are_matched_by_id() {
    assert_eq!(reply_action(true, Some(1), 1, None), ReplyAction::Skip);
    assert_eq!(reply_action(false, Some(2), 1, None), ReplyAction::Skip);
    assert_eq!(reply_action(false, None, 1, None), ReplyAction::Skip);
    assert_eq!(reply_action(false, Some(1), 1, None), ReplyAction::Done);
    assert_eq!(
        reply_action(false, Some(1), 1, Some((None, None))),
        ReplyAction::Fail { code: -32000, message: "Unknown error".to_string() }
    );
    assert_eq!(
        reply_action(false, Some(1), 1, Some((Some(-32601), Some("Method not found".into())))),
        ReplyAction::Fail { code: -32601, message: "Method not found".to_string() }
    );
}

#[test]
fn skin_ids_from_paths() {
    assert_eq!(base_skin_id(Some("Clock"), Some("Mond")), "Mond/Clock");
    assert_eq!(base_skin_id(Some("Clock"), Some("clock")), "clock");
    assert_eq!(base_skin_id(Some("Clock"), Some("Skins")), "Clock");
    assert_eq!(base_skin_id(None, None), "Skin");
    assert_eq!(qualified_skin_id("Mond/Clock", Some("Suite"), true), "Suite/Mond/Clock");
    assert_eq!(qualified_skin_id("Mond/Clock", Some("skins"), true), "Mond/Clock");
    assert_eq!(qualified_skin_id("Mond/Clock", Some("Suite"), false), "Mond/Clock");
}

#[test]
fn skins_are_found_by_id_path_or_stem() {
    let entries = vec![
        ("Mond/Clock".to_string(), "/home/a/skins/Mond/Clock/Clock.ini".to_string()),
        ("Monterey/System".to_string(), "C:\\Skins\\Monterey\\System\\System.ini".to_string()),
    ];
    assert_eq!(find_skin_key(&entries, " Mond/Clock ").as_deref(), Some("Mond/Clock"));
    assert_eq!(find_skin_key(&entries, "mond/clock").as_deref(), Some("Mond/Clock"));
    assert_eq!(find_skin_key(&entries, "monterey / system").as_deref(), Some("Monterey/System"));
    assert_eq!(find_skin_key(&entries, "clock").as_deref(), Some("Mond/Clock"));
    assert_eq!(find_skin_key(&entries, "SYSTEM").as_deref(), Some("Monterey/System"));
    assert_eq!(find_skin_key(&entries, "Weather"), None);
}

#[test]
fn ticks_and_state() {
    assert!(!tick_due(0, 5000));
    assert!(!tick_due(1000, 999));
    assert!(tick_due(1000, 1000));
    let s = DaemonState::running(5, vec!["A".to_string()], BackendType::Mock);
    assert_eq!(s.status, "running");
    assert_eq!(s.backend, "Mock");
    assert_eq!(s.active_skins, vec!["A"]);
}

#[test]
fn request_lines_are_checked_like_json_rpc() {
    assert_eq!(
        check_request(false, false, false, None, None),
        RequestOutcome::Refuse { code: -32700, message: "Parse error".to_string() }
    );
    assert_eq!(
        check_request(true, false, true, None, None),
        RequestOutcome::Refuse { code: -32600, message: "Invalid Request".to_string() }
    );
    assert_eq!(
        check_request(true, true, true, Some("1.0"), Some("pluvia.ping")),
        RequestOutcome::Refuse { code: -32600, message: "Invalid Request: 'jsonrpc' must be '2.0'".to_string() }
    );
    assert_eq!(check_request(true, true, false, None, Some("pluvia.ping")), RequestOutcome::Silent);
    assert_eq!(
        check_request(true, true, true, Some("2.0"), None),
        RequestOutcome::Refuse { code: -32600, message: "Invalid Request: missing method".to_string() }
    );
    assert_eq!(check_request(true, true, false, Some("2.0"), None), RequestOutcome::Silent);
    assert_eq!(
        check_request(true, true, false, Some("2.0"), Some("pluvia.refreshAll")),
        RequestOutcome::Run("pluvia.refreshAll".to_string())
    );
}

#[test]
fn methods_and_their_parameters() {
    assert_eq!(rpc_method("pluvia.ping"), Some(RpcMethod::Ping));
    assert_eq!(rpc_method("pluvia.importPackage"), Some(RpcMethod::ImportPackage));
    assert_eq!(rpc_method("pluvia.setOpacity"), Some(RpcMethod::SetOpacity));
    assert_eq!(rpc_method("Pluvia.Ping"), None);
    assert_eq!(method_not_found_message("nope"), "Method 'nope' not found");

    assert_eq!(string_param(Some("a.ini"), None, true, "path"), Ok("a.ini".to_string()));
    assert_eq!(string_param(None, Some("b.ini"), true, "path"), Ok("b.ini".to_string()));
    assert_eq!(string_param(None, Some("b"), false, "key"), Err("Parameter 'key' is required".to_string()));
    assert_eq!(string_param(None, None, true, "id"), Err("Parameter 'id' is required".to_string()));

    assert_eq!(coordinate_param(Some(-40), "x"), Ok(-40));
    assert_eq!(coordinate_param(Some(0x1_0000_0005), "x"), Ok(5));
    assert_eq!(coordinate_param(None, "y"), Err("Parameter 'y' is required".to_string()));

    assert_eq!(import_destination_for(Some("/opt/skins"), Some("/home/u")), "/opt/skins");
    assert_eq!(import_destination_for(None, Some("/home/u")), "/home/u/.local/share/pluvia/skins");
    assert_eq!(import_destination_for(None, None), "skins");
}
