use metrix::naming::{model_prices, normalize_model, shorten_path, Prices};
use metrix::text::{chars_contain, chars_equal, chars_less, chars_of, push_decimal};

#[test]
fn normalize_maps_versioned_names() {
    assert_eq!(normalize_model("model-opus-4-6-20260101"), "Opus 4.6");
    assert_eq!(normalize_model("model-opus-4-5-20251101"), "Opus 4.5");
    assert_eq!(normalize_model("model-sonnet-4-5-20250929"), "Sonnet 4.5");
    assert_eq!(normalize_model("model-haiku-4-5-20251001"), "Haiku 4.5");
}

#[test]
fn normalize_lowercases_before_matching() {
    assert_eq!(normalize_model("Model-OPUS-4-6"), "Opus 4.6");
    assert_eq!(normalize_model("SONNET"), "Sonnet 4.5");
    assert_eq!(normalize_model("Haiku"), "Haiku 4.5");
}

#[test]
fn normalize_drops_synthetic_and_empty() {
    assert_eq!(normalize_model("<synthetic>"), "");
    assert_eq!(normalize_model(""), "");
}

#[test]
fn normalize_keeps_unknown_names() {
    assert_eq!(normalize_model("model-3-haiku-20240307"), "model-3-haiku-20240307");
    assert_eq!(normalize_model("gpt-4o"), "gpt-4o");
    // "opus" without a known version stays as it is
    assert_eq!(normalize_model("model-opus-4-1"), "model-opus-4-1");
    assert_eq!(normalize_model("Opus 4.6"), "Opus 4.6");
}

#[test]
fn prices_per_model() {
    let opus = Prices { input: 500, output: 2500, cache_write: 625, cache_read: 50 };
    assert_eq!(model_prices("Opus 4.6"), opus);
    assert_eq!(model_prices("Opus 4.5"), opus);
    assert_eq!(
        model_prices("Sonnet 4.5"),
        Prices { input: 300, output: 1500, cache_write: 375, cache_read: 30 }
    );
    assert_eq!(
        model_prices("Haiku 4.5"),
        Prices { input: 100, output: 500, cache_write: 125, cache_read: 10 }
    );
    // unknown models default to Opus pricing
    assert_eq!(model_prices("gpt-4o"), opus);
    assert_eq!(model_prices(""), opus);
}

#[test]
fn shorten_keeps_last_two_components() {
    assert_eq!(shorten_path("/home/user/project/src/main.rs"), "/src/main.rs");
    assert_eq!(shorten_path("src/main.rs"), "src/main.rs");
    assert_eq!(shorten_path("a/b/c"), "/b/c");
    assert_eq!(shorten_path("main.rs"), "main.rs");
    assert_eq!(shorten_path("/main.rs"), "/main.rs");
    assert_eq!(shorten_path(""), "");
    assert_eq!(shorten_path("//"), "//");
    assert_eq!(shorten_path("/é/ü/ß.rs"), "/ü/ß.rs");
}

#[test]
fn char_helpers() {
    let a = chars_of("abc");
    let b = chars_of("abd");
    assert!(chars_less(&a, &b));
    assert!(!chars_less(&b, &a));
    assert!(!chars_less(&a, &a));
    assert!(chars_less(&chars_of("ab"), &a));
    assert!(chars_equal(&a, &chars_of("abc")));
    assert!(chars_contain(&chars_of("model-opus-4-6"), &chars_of("4-6")));
    assert!(!chars_contain(&chars_of("model-opus-4-6"), &chars_of("4-5")));
    assert!(chars_contain(&chars_of("x"), &chars_of("")));
}

#[test]
fn decimal_digits() {
    let mut s = String::from("n=");
    push_decimal(&mut s, 0);
    assert_eq!(s, "n=0");
    let mut t = String::new();
    push_decimal(&mut t, 18446744073709551615);
    assert_eq!(t, "18446744073709551615");
}
