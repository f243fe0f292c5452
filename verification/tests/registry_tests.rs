use myfin::dataset::Dataset;
use myfin::error::Error;
use myfin::registry::{Auth, Chain, RateLimit, Registry, RegistryError, SourceConfig, SourceKind};

fn source(name: &str, kind: SourceKind, package: Option<&str>) -> SourceConfig {
    SourceConfig {
        name: name.to_string(),
        description: "test".to_string(),
        kind,
        lang: "python".to_string(),
        package: package.map(|p| p.to_string()),
        auth: Auth::Anonymous,
        rate_limit: RateLimit { min_interval_ms: 800, max_calls_per_minute: None, max_calls_per_day: None, backoff_ms: 30000 },
        datasets: vec![Dataset::Daily],
        probe: None,
        notes: None,
    }
}

fn chain(dataset: Dataset, order: &[&str]) -> (Dataset, Chain) {
    (dataset, Chain { dataset, order: order.iter().map(|s| s.to_string()).collect() })
}

fn message(result: Result<(), RegistryError>) -> String {
    match result {
        Err(RegistryError::Validation(m)) => m,
        other => panic!("unexpected result: {other:?}"),
    }
}

#[test]
fn a_consistent_registry_validates_and_its_chains_resolve() {
    let registry = Registry {
        version: 1,
        sources: vec![source("baostock", SourceKind::PythonSdk, Some("myfin_py.sources.baostock_source")), source("tencent", SourceKind::Http, None)],
        chains: vec![chain(Dataset::Daily, &["tencent", "baostock"])],
    };
    assert!(registry.validate().is_ok());
    let daily = registry.chain(Dataset::Daily).unwrap();
    for name in &daily.order {
        assert!(registry.source(name).is_some());
    }
    assert!(registry.chain(Dataset::Macro).is_none());
}

#[test]
fn validation_reports_the_first_broken_rule() {
    let mut registry = Registry { version: 2, sources: vec![], chains: vec![] };
    assert_eq!(message(registry.validate()), "不支持的注册表版本: 2（当前支持 1）");
    registry.version = 1;
    registry.sources.push(source("akshare", SourceKind::PythonSdk, None));
    assert_eq!(message(registry.validate()), "python_sdk 数据源 akshare 缺少 package 字段");
    registry.sources[0].package = Some("myfin_py.sources.akshare_source".to_string());
    registry.sources.push(SourceConfig { auth: Auth::Token { env_var: String::new() }, ..source("tushare", SourceKind::Http, None) });
    assert_eq!(message(registry.validate()), "数据源 tushare 的 token env_var 为空");
    registry.sources.pop();
    registry.chains.push(chain(Dataset::Macro, &["akshare", "nobody"]));
    assert_eq!(message(registry.validate()), "数据集 macro 优先级链引用了未定义的数据源: nobody");
    registry.chains[0] = (Dataset::Daily, Chain { dataset: Dataset::Macro, order: vec!["akshare".to_string()] });
    assert_eq!(message(registry.validate()), "chain 键 daily 与内部 dataset 字段不一致（macro）");
    registry.chains[0] = chain(Dataset::Macro, &[]);
    assert_eq!(message(registry.validate()), "数据集 macro 的优先级链为空");
}

#[test]
fn lookups_return_the_first_match() {
    let registry = Registry {
        version: 1,
        sources: vec![source("dup", SourceKind::Http, None), SourceConfig { description: "second".to_string(), ..source("dup", SourceKind::Http, None) }],
        chains: vec![],
    };
    assert_eq!(registry.source("dup").unwrap().description, "test");
    assert!(registry.source("missing").is_none());
}

#[test]
fn registry_errors_become_config_errors() {
    match RegistryError::Parse("bad yaml".to_string()).into_error() {
        Error::Config(m) => assert_eq!(m, "注册表解析失败: bad yaml"),
        other => panic!("unexpected error: {other:?}"),
    }
    match RegistryError::Validation("x".to_string()).into_error() {
        Error::Config(m) => assert_eq!(m, "注册表校验失败: x"),
        other => panic!("unexpected error: {other:?}"),
    }
}

#[test]
fn a_dataset_may_have_only_one_chain() {
    let registry = Registry {
        version: 1,
        sources: vec![source("tencent", SourceKind::Http, None)],
        chains: vec![chain(Dataset::Daily, &["tencent"]), chain(Dataset::Daily, &["tencent"])],
    };
    assert_eq!(message(registry.validate()), "数据集 daily 的优先级链重复");
}
