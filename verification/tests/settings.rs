use byrradar::config::{
    escape_env_value, normalize_env_value, parse_category_filter, set_or_remove, validate_required, ConfigError,
    ConfigForm, ConfigKey,
};
use byrradar::planner::default_planner_config;
use byrradar::startup::{
    choose_source, legacy_config_paths, saved_line, start_current, start_fresh, start_migrated, start_unmigrated,
    startup_log, Source,
};

fn filled() -> ConfigForm {
    ConfigForm {
        byr_username: " user ".to_string(),
        byr_password: " pa\"ss\\word ".to_string(),
        qb_host: " http://localhost:8080// ".to_string(),
        qb_username: "admin".to_string(),
        qb_password: "secret".to_string(),
        qb_download_path: " D:\\BT ".to_string(),
        download_budget_gb: " 1.5 ".to_string(),
        include_categories: "电影, ,剧集 ,".to_string(),
    }
}

fn texts(form: &ConfigForm) -> [&str; 8] {
    [
        &form.byr_username,
        &form.byr_password,
        &form.qb_host,
        &form.qb_username,
        &form.qb_password,
        &form.qb_download_path,
        &form.download_budget_gb,
        &form.include_categories,
    ]
}

#[test]
fn the_default_form() {
    let form = ConfigForm::default();
    assert_eq!(texts(&form), ["", "", "http://127.0.0.1:8080", "admin", "", "H:/BT", "200", ""]);
}

#[test]
fn values_are_escaped_and_back() {
    assert_eq!(escape_env_value("a\\b\"c"), "a\\\\b\\\"c");
    for value in ["", "\\", "\"", "\\\"", "\\\\\"\"\\", "plain", "中\\n文"] {
        let line = format!("\"{}\"", escape_env_value(value));
        assert_eq!(normalize_env_value(&line), value);
    }
    assert_eq!(normalize_env_value(" 'a b' "), "a b");
    assert_eq!(normalize_env_value(" \"a b\" "), "a b");
    assert_eq!(normalize_env_value("\""), "\"");
    assert_eq!(normalize_env_value("'a\""), "'a\"");
    assert_eq!(normalize_env_value("  bare value "), "bare value");
}

#[test]
fn a_written_form_reads_back() {
    let mut form = filled();
    form.download_budget_gb = "1.5".to_string();
    let content = form.render_env();
    assert_eq!(
        content,
        "BYRBT_USERNAME=\" user \"\nBYRBT_PASSWORD=\" pa\\\"ss\\\\word \"\n\nQBITTORRENT_HOST=\" http://localhost:8080// \"\nQBITTORRENT_USERNAME=\"admin\"\nQBITTORRENT_PASSWORD=\"secret\"\nQBITTORRENT_DOWNLOAD_PATH=\" D:\\\\BT \"\n\nDOWNLOAD_BUDGET_GB=1.5\nINCLUDE_CATEGORIES=\"电影, ,剧集 ,\"\n"
    );
    assert_eq!(texts(&ConfigForm::parse_env(&content)), texts(&form));
    assert_eq!(texts(&form.clone()), texts(&form));
}

#[test]
fn lines_that_say_nothing_are_passed_over() {
    let form = ConfigForm::parse_env(
        "# BYRBT_USERNAME=a\n\n  BYRBT_USERNAME = 'b=c' \r\nBYRBT_PASSWORD\nUNKNOWN=1\nQBITTORRENT_HOST=\"  \"\nDOWNLOAD_BUDGET_GB=\nBYRBT_PASSWORD=p",
    );
    assert_eq!(texts(&form), ["b=c", "p", "http://127.0.0.1:8080", "admin", "", "H:/BT", "200", ""]);
    assert_eq!(texts(&ConfigForm::parse_env("")), texts(&ConfigForm::default()));
}

#[test]
fn a_form_becomes_a_configuration() {
    let config = filled().into_core_config(true).unwrap();
    assert_eq!(config.byr_username, "user");
    assert_eq!(config.byr_password, " pa\"ss\\word ");
    assert_eq!(config.qb_host, "http://localhost:8080");
    assert_eq!(config.qb_username, "admin");
    assert_eq!(config.qb_password, "secret");
    assert_eq!(config.qb_download_path, "D:\\BT");
    assert!(config.dry_run);
    assert_eq!(config.include_categories, Some(vec!["电影".to_string(), "剧集".to_string()]));
    let mut form = filled();
    form.qb_download_path = " ".to_string();
    form.download_budget_gb = " ".to_string();
    form.include_categories = " , ".to_string();
    let config = form.into_core_config(false).unwrap();
    assert_eq!(config.qb_download_path, "H:/BT");
    assert!(!config.dry_run);
    assert_eq!(config.include_categories, None);
}

#[test]
fn what_is_missing_or_wrong_is_refused() {
    let cases: [(fn(&mut ConfigForm), &str); 9] = [
        (|form| form.byr_username = " ".to_string(), "缺少配置项: BYRBT_USERNAME"),
        (|form| form.byr_password = "".to_string(), "缺少配置项: BYRBT_PASSWORD"),
        (|form| form.qb_host = "\t".to_string(), "缺少配置项: QBITTORRENT_HOST"),
        (|form| form.qb_username = "".to_string(), "缺少配置项: QBITTORRENT_USERNAME"),
        (|form| form.qb_password = "".to_string(), "缺少配置项: QBITTORRENT_PASSWORD"),
        (|form| form.download_budget_gb = "many".to_string(), "DOWNLOAD_BUDGET_GB 必须是数字"),
        (|form| form.download_budget_gb = "0".to_string(), "DOWNLOAD_BUDGET_GB 必须大于 0"),
        (|form| form.download_budget_gb = "-3".to_string(), "DOWNLOAD_BUDGET_GB 必须大于 0"),
        (|form| form.download_budget_gb = "-inf".to_string(), "DOWNLOAD_BUDGET_GB 必须大于 0"),
    ];
    for (change, message) in cases {
        let mut form = filled();
        change(&mut form);
        assert_eq!(form.into_core_config(false).unwrap_err().message(), message);
    }
    let mut form = filled();
    form.download_budget_gb = "NaN".to_string();
    assert!(form.into_core_config(false).is_ok());
    assert!(matches!(
        validate_required(ConfigKey::QbHost, ""),
        Err(ConfigError::Missing(_))
    ));
    assert!(validate_required(ConfigKey::QbHost, "x").is_ok());
}

#[test]
fn the_environment_follows_the_form() {
    let mut form = filled();
    form.include_categories = " ".to_string();
    let changes: Vec<(String, Option<String>)> = form
        .apply_process_env()
        .into_iter()
        .map(|change| (change.key.name().to_string(), change.value))
        .collect();
    let expected = [
        ("BYRBT_USERNAME", Some("user")),
        ("BYRBT_PASSWORD", Some("pa\"ss\\word")),
        ("QBITTORRENT_HOST", Some("http://localhost:8080//")),
        ("QBITTORRENT_USERNAME", Some("admin")),
        ("QBITTORRENT_PASSWORD", Some("secret")),
        ("QBITTORRENT_DOWNLOAD_PATH", Some("D:\\BT")),
        ("DOWNLOAD_BUDGET_GB", Some("1.5")),
        ("INCLUDE_CATEGORIES", None),
    ];
    assert_eq!(changes.len(), expected.len());
    for (change, (key, value)) in changes.iter().zip(expected) {
        assert_eq!(change.0, key);
        assert_eq!(change.1.as_deref(), value);
    }
    assert_eq!(set_or_remove(ConfigKey::QbHost, "\n").value, None);
}

#[test]
fn categories_are_listed_by_commas() {
    assert_eq!(parse_category_filter(None), None);
    assert_eq!(parse_category_filter(Some(" ,".to_string())), None);
    assert_eq!(
        parse_category_filter(Some("a , b,,c".to_string())),
        Some(vec!["a".to_string(), "b".to_string(), "c".to_string()])
    );
}

#[test]
fn an_accepted_budget_is_in_force() {
    let limit = |setting| default_planner_config(setting).download_budget_bytes;
    assert_eq!(default_planner_config(None).min_free_space_bytes, 5 * 1024 * 1024 * 1024);
    assert_eq!(limit(None), None);
    assert_eq!(limit(Some("200")), Some(200 * 1024 * 1024 * 1024));
    assert_eq!(limit(Some("0.1")), Some((0.1f64 * 1073741824.0) as u64));
    assert_eq!(limit(Some("inf")), Some(u64::MAX));
    for setting in ["", " 200", "0", "-1", "nan", "many"] {
        assert_eq!(limit(Some(setting)), None, "{setting}");
    }
}

#[test]
fn older_settings_are_looked_for_once() {
    assert_eq!(legacy_config_paths(&1u32, vec![1, 2, 3, 2, 1, 4, 3]), vec![2, 3, 4]);
    assert_eq!(legacy_config_paths(&1u32, vec![1, 1]), Vec::<u32>::new());
    let paths: Vec<std::path::PathBuf> = vec!["a/.env".into(), "b/.env".into(), "a//.env".into()];
    let target = std::path::PathBuf::from("b/.env");
    assert_eq!(legacy_config_paths(&target, paths), vec![std::path::PathBuf::from("a/.env")]);
}

#[test]
fn the_first_settings_that_exist_are_taken() {
    assert!(matches!(choose_source(true, &[true]), Source::Current));
    assert!(matches!(choose_source(false, &[false, true, true]), Source::Legacy(1)));
    assert!(matches!(choose_source(false, &[false]), Source::Fresh));
    assert!(matches!(choose_source(false, &[]), Source::Fresh));
}

#[test]
fn the_start_tells_where_the_settings_come_from() {
    let current = start_current(Ok(filled()));
    assert_eq!(current.form.byr_username, " user ");
    assert!(current.notes.is_empty() && current.error.is_none());
    assert_eq!(startup_log("/p", &current), vec!["Tauri shell ready", "配置文件: /p"]);

    let unread = start_current(Err("boom".to_string()));
    assert_eq!(unread.error.as_deref(), Some("配置加载失败: boom"));
    assert_eq!(texts(&unread.form), texts(&ConfigForm::default()));

    let moved = start_migrated("/new", "/old", filled(), Ok(()));
    assert_eq!(moved.notes, vec!["检测到旧配置，正在迁移到用户目录: /new", "配置迁移来源: /old"]);
    assert!(moved.error.is_none());

    let stuck = start_migrated("/new", "/old", filled(), Err("full".to_string()));
    assert_eq!(stuck.notes, vec!["检测到旧配置，正在迁移到用户目录: /new"]);
    assert_eq!(stuck.error.as_deref(), Some("已从旧配置 /old 读取，但写入新配置目录失败: full"));
    assert_eq!(
        startup_log("/new", &stuck),
        vec![
            "Tauri shell ready",
            "配置文件: /new",
            "检测到旧配置，正在迁移到用户目录: /new",
            "已从旧配置 /old 读取，但写入新配置目录失败: full"
        ]
    );

    let lost = start_unmigrated("/old", "bad");
    assert_eq!(lost.error.as_deref(), Some("旧配置加载失败 (/old): bad"));
    assert!(lost.notes.is_empty());

    let fresh = start_fresh("/new");
    assert_eq!(fresh.notes, vec!["首次启动将在此创建配置: /new"]);
    assert!(fresh.error.is_none());
    assert_eq!(saved_line("/new"), "已保存配置到 /new");
}
