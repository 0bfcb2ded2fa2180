use arcaea::{
    fsm_prune_components, generate_rust_code, parse_arcaea_source, try_parse_arcaea_source, ArcaeaComponent,
    Channel, EnvironmentConfig,
};

fn s(x: &str) -> String {
    x.to_string()
}

const SOURCE: &str = r#"
        #[component(name = "lca_driver", version = "1.0.0")]
        #[channel = "Stable"]
        module lca_driver {
            pub fn init() {
                if ok { x(); }
            }
        }

        #[component(name = "hal_riscv", version = "1.0.0")]
        #[channel = "Stable"]
        module hal_riscv {
            pub fn enter_hibernation() -> ! {
                loop { wfi(); }
            }
        }
    "#;

fn comp(name: &str, channel: Channel, flag: Option<&str>, body: &str) -> ArcaeaComponent {
    ArcaeaComponent { name: s(name), channel, feature_flag: flag.map(s), code_body: s(body) }
}

#[test]
fn parses_annotated_modules_without_their_shell() {
    let comps = parse_arcaea_source(SOURCE);
    assert_eq!(
        comps,
        vec![
            comp(
                "lca_driver",
                Channel::Stable,
                None,
                "            pub fn init() {\n                if ok { x(); }\n            }\n",
            ),
            comp(
                "hal_riscv",
                Channel::Stable,
                None,
                "            pub fn enter_hibernation() -> ! {\n                loop { wfi(); }\n            }\n",
            ),
        ]
    );
}

#[test]
fn attributes_set_channel_and_flag_and_channel_persists() {
    let src = "#[component(name = \"a\")]\n#[channel = \"Nightly\"]\n#[feature(flag = \"fast\")]\nmodule a {\nbody\n}\n#[component(name = \"b\")]\nmodule b {\n}\n";
    let comps = parse_arcaea_source(src);
    assert_eq!(
        comps,
        vec![comp("a", Channel::Nightly, Some("fast"), "body\n"), comp("b", Channel::Nightly, None, "")]
    );
}

#[test]
fn module_without_name_is_dropped_and_crlf_lines_are_split() {
    let src = "module x {\r\ny\r\n}\r\n#[component(name = \"k\")]\r\nmodule k {\r\nz\r\n}";
    assert_eq!(parse_arcaea_source(src), vec![comp("k", Channel::Stable, None, "z\n")]);
}

#[test]
fn closing_more_braces_than_opened_is_refused() {
    assert_eq!(try_parse_arcaea_source("#[component(name = \"a\")]\nmodule a {\n}}\n"), None);
    assert!(try_parse_arcaea_source(SOURCE).is_some());
}

#[test]
fn pruning_keeps_stable_components_during_the_wave() {
    let env = EnvironmentConfig {
        status: s("DeepSpace_Wave_Active"),
        enabled_features: vec![s("enable_rant_prediction")],
    };
    let comps = parse_arcaea_source(SOURCE);
    let (kept, log) = fsm_prune_components(comps.clone(), &env);
    assert_eq!(kept, comps);
    assert_eq!(
        log,
        vec![
            s("[FSM] 開始驗證組件拓撲..."),
            s("[FSM] 環境狀態: DeepSpace_Wave_Active"),
            s("[FSM] ✅ 組件 [lca_driver] 驗證通過，保留。"),
            s("[FSM] ✅ 組件 [hal_riscv] 驗證通過，保留。"),
        ]
    );
}

#[test]
fn pruning_removes_nightly_and_disabled_features() {
    let env = EnvironmentConfig { status: s("DeepSpace_Wave_Active"), enabled_features: vec![s("on")] };
    let comps = vec![
        comp("n", Channel::Nightly, None, ""),
        comp("f", Channel::Stable, Some("off"), ""),
        comp("both", Channel::Nightly, Some("off"), ""),
        comp("ok", Channel::Stable, Some("on"), ""),
    ];
    let (kept, log) = fsm_prune_components(comps, &env);
    assert_eq!(kept, vec![comp("ok", Channel::Stable, Some("on"), "")]);
    assert_eq!(log[2], s("[FSM] ❌ 組件 [n] 被物理裁剪。原因: FSM 協議：深空波動期強制剔除 Nightly 組件"));
    assert_eq!(log[3], s("[FSM] ❌ 組件 [f] 被物理裁剪。原因: 特性開關 [off] 未在環境配置中開啟"));
    assert_eq!(log[4], s("[FSM] ❌ 組件 [both] 被物理裁剪。原因: 特性開關 [off] 未在環境配置中開啟"));
    let calm = EnvironmentConfig { status: s("Normal"), enabled_features: vec![] };
    let (kept, _) = fsm_prune_components(vec![comp("n", Channel::Nightly, None, "")], &calm);
    assert_eq!(kept.len(), 1);
}

#[test]
fn generated_code_wraps_each_body_in_a_module() {
    let code = generate_rust_code(&[comp("a", Channel::Stable, None, "x\n"), comp("b", Channel::Stable, None, "")]);
    assert_eq!(
        code,
        s("// ==========================================\n// 由 arcaea-rebuild (ACTP 協議) 自動生成\n// 警告：請勿手動修改此文件\n// ==========================================\n\npub mod a {\nx\n}\n\npub mod b {\n}\n\n")
    );
}

#[test]
fn pruning_twice_removes_nothing_more() {
    let env = EnvironmentConfig { status: s("DeepSpace_Wave_Active"), enabled_features: vec![s("on")] };
    let comps = vec![
        comp("n", Channel::Nightly, None, ""),
        comp("ok", Channel::Stable, Some("on"), "x\n"),
        comp("plain", Channel::Stable, None, ""),
    ];
    let (once, _) = fsm_prune_components(comps, &env);
    let (twice, _) = fsm_prune_components(once.clone(), &env);
    assert_eq!(once, twice);
    assert_eq!(once.len(), 2);
}
