use lib::api::{
    agent_settings, locate_for_reset, locate_session, plan_export, agent_sizes, created_response, describe, export_format, export_response, optimizer_choice,
    parse_command, run_response, session_entry, session_id, sessions_response, Command,
    ExportFormat, OptimizerChoice, SessionStore,
};
use lib::json::Json;

fn params(pairs: &[(&str, Json)]) -> Json {
    let mut o = Json::obj();
    for (k, v) in pairs {
        o.set(k, v.copy_value());
    }
    o
}

fn text(s: &str) -> Json {
    Json::Str(s.to_string())
}

#[test]
fn unknown_command_errors() {
    assert!(parse_command("nope").is_err());
    assert_eq!(parse_command("nope"), Err("commande inconnue : 'nope'".to_string()));
}

#[test]
fn every_command_is_recognised() {
    let all = [
        ("describe", Command::Describe),
        ("create", Command::Create),
        ("step", Command::Step),
        ("run", Command::Run),
        ("state", Command::State),
        ("export", Command::Export),
        ("reset", Command::Reset),
        ("list_sessions", Command::ListSessions),
    ];
    for (name, c) in all {
        assert_eq!(parse_command(name), Ok(c));
    }
    assert!(parse_command("Describe").is_err());
}

#[test]
fn session_id_defaults() {
    assert_eq!(session_id(&Json::obj()), "default");
    assert_eq!(session_id(&params(&[("id", text("s1"))])), "s1");
    assert_eq!(session_id(&params(&[("id", Json::from_i64(3))])), "default");
    assert_eq!(session_id(&Json::Null), "default");
}

#[test]
fn export_formats() {
    assert_eq!(export_format(&Json::obj()), Ok(ExportFormat::Json));
    assert_eq!(export_format(&params(&[("format", text("csv"))])), Ok(ExportFormat::Csv));
    assert_eq!(
        export_format(&params(&[("format", text("xml"))])),
        Err("format inconnu : 'xml' (csv|json)".to_string())
    );
    let r = export_response(ExportFormat::Csv, 40, "t,si\n".to_string());
    assert_eq!(r.to_string(), "{\"data\":\"t,si\\n\",\"format\":\"csv\",\"ok\":true,\"rows\":40}");
}

#[test]
fn optimizer_selection() {
    assert_eq!(
        optimizer_choice("cma", None, None, Some(5), 3),
        Ok(OptimizerChoice::Cma { population: 0, generations: 10, seed: 3 ^ 0xC3A })
    );
    assert_eq!(
        optimizer_choice("sep-cma-es", Some(8), Some(2), None, 0),
        Ok(OptimizerChoice::Cma { population: 8, generations: 2, seed: 0xC3A })
    );
    assert_eq!(
        optimizer_choice("neighborhood", None, None, None, 7),
        Ok(OptimizerChoice::Random { candidates: 48, seed: 7 ^ 0xABCD })
    );
    assert_eq!(
        optimizer_choice("adam", None, None, None, 7),
        Err("optimiseur inconnu : 'adam' (random|cma)".to_string())
    );
}

#[test]
fn agent_sizes_have_defaults_and_floors() {
    let d = agent_sizes(None, None, None, None, None);
    assert_eq!((d.seed, d.dim, d.n_tasks, d.n_hardware, d.n_software), (2026, 6, 1024, 4, 4));
    let f = agent_sizes(Some(7), Some(0), Some(3), Some(0), Some(9));
    assert_eq!((f.seed, f.dim, f.n_tasks, f.n_hardware, f.n_software), (7, 1, 16, 1, 9));
}

#[test]
fn describe_lists_the_commands() {
    let d = describe("0.1.0");
    assert_eq!(d.get("version").and_then(|v| v.as_str()), Some("0.1.0"));
    assert_eq!(d.get("name").and_then(|v| v.as_str()), Some("RSI — Recursive Self-Improvement"));
    let cmds = d.get("commands").unwrap().as_array().unwrap();
    let names: Vec<&str> = cmds.iter().map(|c| c.get("name").unwrap().as_str().unwrap()).collect();
    assert_eq!(
        names,
        vec!["describe", "create", "step", "run", "state", "export", "reset", "list_sessions"]
    );
    assert_eq!(
        cmds[6].get("description").unwrap().as_str(),
        Some("Réinitialise la session. Params: id.")
    );
}

#[test]
fn store_keeps_sessions_by_name() {
    let mut store: SessionStore<u32> = SessionStore::new();
    store.insert("b".to_string(), 2);
    store.insert("a".to_string(), 1);
    store.insert("c".to_string(), 3);
    store.insert("b".to_string(), 20);
    assert_eq!(store.len(), 3);
    let ids: Vec<&str> = (0..store.len()).map(|i| store.id_at(i)).collect();
    assert_eq!(ids, vec!["a", "b", "c"]);
    assert_eq!(store.get("b"), Some(&20));
    assert_eq!(store.get("z"), None);
    assert_eq!(store.find("c"), Some(2));
    *store.session_mut("a").unwrap() += 10;
    assert_eq!(store.session_at(0), &11);
    assert_eq!(
        store.session_mut("zz").err(),
        Some("session inconnue : 'zz' (appelez d'abord 'create')".to_string())
    );
}

#[test]
fn answers_have_their_fields() {
    let c = created_response("s1".to_string(), Json::obj());
    assert_eq!(c.to_string(), "{\"id\":\"s1\",\"initial\":{},\"ok\":true}");
    let line = session_entry("s1", 40, Json::Num("0.5".to_string()), 40);
    assert_eq!(line.to_string(), "{\"history_len\":40,\"id\":\"s1\",\"si_global\":0.5,\"t\":40}");
    let list = sessions_response(vec![line]);
    assert_eq!(list.get("sessions").unwrap().as_array().unwrap().len(), 1);
    let r = run_response(
        "s1".to_string(),
        2,
        Json::Num("0.1".to_string()),
        2,
        Some((Json::Num("0.3".to_string()), Json::Num("0.2".to_string()), Json::obj())),
    );
    assert_eq!(
        r.to_string(),
        "{\"gain\":0.2,\"id\":\"s1\",\"last\":{},\"ok\":true,\"si_end\":0.3,\"si_start\":0.1,\"steps\":2,\"total_steps\":2}"
    );
    let empty = run_response("s1".to_string(), 0, Json::Num("0.1".to_string()), 0, None);
    assert_eq!(empty.get("si_end"), None);
}

#[test]
fn lookups_before_any_change() {
    let mut store: SessionStore<u32> = SessionStore::new();
    store.insert("s1".to_string(), 1);
    assert_eq!(locate_session(&store, &params(&[("id", text("s1"))])), Ok(0));
    assert_eq!(
        locate_session(&store, &Json::obj()),
        Err("session inconnue : 'default' (appelez d'abord 'create')".to_string())
    );
    assert_eq!(locate_for_reset(&store, &params(&[("id", text("x"))])), Err("session inconnue : 'x'".to_string()));
    assert_eq!(
        plan_export(&store, &params(&[("id", text("zz")), ("format", text("xml"))])),
        Err("session inconnue : 'zz' (appelez d'abord 'create')".to_string())
    );
    assert_eq!(
        plan_export(&store, &params(&[("id", text("s1")), ("format", text("xml"))])),
        Err("format inconnu : 'xml' (csv|json)".to_string())
    );
    assert_eq!(plan_export(&store, &params(&[("id", text("s1"))])), Ok((0, ExportFormat::Json)));
    assert_eq!(store.get("s1"), Some(&1));
}

#[test]
fn agent_settings_validate_the_optimizer() {
    let ok = agent_settings(&Json::obj(), None, None, Some(3), None, None, None, None, None).unwrap();
    assert_eq!(ok.0.n_tasks, 16);
    assert_eq!(ok.1, OptimizerChoice::Random { candidates: 48, seed: 2026 ^ 0xABCD });
    let non_string = params(&[("optimizer", Json::from_i64(1))]);
    assert!(agent_settings(&non_string, None, None, None, None, None, None, None, None).is_ok());
    let bad = params(&[("optimizer", text("adam"))]);
    assert_eq!(
        agent_settings(&bad, None, None, None, None, None, None, None, None).err(),
        Some("optimiseur inconnu : 'adam' (random|cma)".to_string())
    );
}
