use oasgen::{Config, MimeKind, SwaggerUi, UiAsset, Url};

const HTML_MIME: &str = "text/html; charset=utf-8";
const JS_MIME: &str = "application/javascript; charset=utf-8";
const CSS_MIME: &str = "text/css; charset=utf-8";

#[test]
fn test_swagger() {
    let ui = SwaggerUi::default();

    let res = ui.resolve_asset("/");
    assert!(matches!(res, UiAsset::Index));
    assert_eq!(MimeKind::Html.content_type(), HTML_MIME);

    let res = ui.resolve_asset("/swagger-initializer.js");
    assert!(matches!(res, UiAsset::Initializer));
    assert_eq!(MimeKind::Js.content_type(), JS_MIME);

    let res = ui.resolve_asset("/swagger-ui.css");
    let UiAsset::Asset { file, mime } = res else { panic!() };
    assert_eq!(file, "swagger-ui.css");
    assert_eq!(mime, MimeKind::Css);
    assert_eq!(mime.content_type(), CSS_MIME);

    let res = ui.resolve_asset("/not-found");
    let UiAsset::Asset { file, mime } = res else { panic!() };
    assert_eq!(file, "not-found");
    assert_eq!(mime, MimeKind::Other);
}

#[test]
fn test_prefix_stripping() {
    let ui = SwaggerUi::default().prefix("/docs");

    let res = ui.resolve_asset("/docs");
    assert!(matches!(res, UiAsset::Index));

    let res = ui.resolve_asset("/docs/");
    assert!(matches!(res, UiAsset::Index));

    let res = ui.resolve_asset("/docs/swagger-initializer.js");
    assert!(matches!(res, UiAsset::Initializer));
}

#[test]
fn test_asset_mime_kinds() {
    let ui = SwaggerUi::default();
    let UiAsset::Asset { mime, .. } = ui.resolve_asset("/index.html") else { panic!() };
    assert_eq!(mime, MimeKind::Html);
    let UiAsset::Asset { mime, .. } = ui.resolve_asset("/swagger-ui-bundle.js") else { panic!() };
    assert_eq!(mime, MimeKind::Js);
    let UiAsset::Asset { mime, .. } = ui.resolve_asset("/favicon-32x32.png") else { panic!() };
    assert_eq!(mime, MimeKind::Png);
    let UiAsset::Asset { mime, .. } = ui.resolve_asset("/LICENSE.txt") else { panic!() };
    assert_eq!(mime, MimeKind::Other);
}

#[test]
fn test_config_defaults() {
    let c = Config::default();
    assert_eq!(c.dom_id.as_deref(), Some("#swagger-ui"));
    assert_eq!(c.deep_linking, Some(true));
    assert_eq!(c.layout, "StandaloneLayout");
    assert!(c.urls.is_empty());
    assert!(c.url.is_none());
    assert!(c.validator_url.is_none());
}

#[test]
fn test_config_url_appends() {
    let mut c = Config::default();
    c.url(Url::from("/openapi.json"));
    c.url(Url::from("/other.yaml".to_string()));
    assert_eq!(c.urls.len(), 2);
    assert_eq!(c.urls[0].url, "/openapi.json");
    assert_eq!(c.urls[1].url, "/other.yaml");
}

#[test]
fn test_url_from_str() {
    let u = Url::from("/spec.json");
    assert_eq!(u.url, "/spec.json");
    assert_eq!(u.name, "");
    assert!(!u.primary);
}

#[test]
fn test_swagger_ui_builder() {
    let ui = SwaggerUi::default().prefix("/docs").url(Url::from("/docs/openapi.json"));
    assert_eq!(ui.prefix, "/docs");
    assert_eq!(ui.config.urls.len(), 1);
    assert_eq!(ui.config.urls[0].url, "/docs/openapi.json");
}
