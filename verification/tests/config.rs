use fast_umap::config::{ChartConfig, ChartConfigBuilder, CAPTION, PATH};

#[test]
fn default_config_has_the_documented_defaults() {
    let config = ChartConfig::default();
    assert_eq!(config.caption, "fast-umap");
    assert_eq!(config.path, "plot.png");
    assert_eq!(config.width, 1000);
    assert_eq!(config.height, 1000);
    assert_eq!(CAPTION, "fast-umap");
    assert_eq!(PATH, "plot.png");
}

#[test]
fn builder_starts_from_the_defaults() {
    assert_eq!(ChartConfig::builder().build(), ChartConfig::default());
}

#[test]
fn default_builder_builds_the_defaults() {
    assert_eq!(ChartConfigBuilder::default().build(), ChartConfig::default());
}

#[test]
fn builder_sets_each_option_independently() {
    let config = ChartConfig::builder().caption("embedding").build();
    assert_eq!(
        config,
        ChartConfig {
            caption: "embedding".to_string(),
            path: "plot.png".to_string(),
            width: 1000,
            height: 1000,
        }
    );
    let config = ChartConfig::builder().path("out/run.png").build();
    assert_eq!(config.path, "out/run.png");
    assert_eq!(config.caption, "fast-umap");
    let config = ChartConfig::builder().width(640).build();
    assert_eq!((config.width, config.height), (640, 1000));
    let config = ChartConfig::builder().height(480).build();
    assert_eq!((config.width, config.height), (1000, 480));
}

#[test]
fn builder_keeps_the_last_value_set() {
    let config = ChartConfig::builder()
        .caption("a")
        .width(1)
        .height(2)
        .path("p")
        .caption("b")
        .width(3)
        .build();
    assert_eq!(
        config,
        ChartConfig { caption: "b".to_string(), path: "p".to_string(), width: 3, height: 2 }
    );
}

#[test]
fn builder_accepts_empty_texts_and_zero_sizes() {
    let config = ChartConfigBuilder::default().caption("").path("").width(0).height(0).build();
    assert_eq!(
        config,
        ChartConfig { caption: String::new(), path: String::new(), width: 0, height: 0 }
    );
}
