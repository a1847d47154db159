use phupload::flow::Credentials;
use phupload::metadata::Metadata;
use phupload::store::Flickr;
use phupload::Upload;

fn metadata() -> Metadata {
    Metadata {
        camera: "Sony a7r II".to_string(),
        focal_length: "35.0 mm".to_string(),
        iso: "100".to_string(),
        aperture: "2.8".to_string(),
        shutter_speed: "1/250".to_string(),
        title: "Hello World".to_string(),
        description: "a view".to_string(),
        tags: vec!["alpha".to_string(), "beta".to_string(), "upload".to_string()],
        height_at_1200: 800,
        created_at: "a view".to_string(),
    }
}

#[test]
fn upload_request_carries_the_photo_fields() {
    let creds = Credentials {
        client_key: "ck".to_string(),
        client_secret: "cs".to_string(),
        token: None,
        token_secret: None,
        verifier: None,
        access_token: Some("AT".to_string()),
        access_token_secret: Some("AS".to_string()),
    };
    let photo = Upload { path: "/tmp/p.jpg", photo: &[], metadata: metadata(), url: None };
    let req = Flickr::upload_request(&creds, &photo, "n1".to_string(), "t1".to_string());
    assert_eq!(req.method, "POST");
    assert_eq!(req.url, "https://up.flickr.com/services/upload/");
    let get = |key: &str| {
        req.params
            .iter()
            .find(|(k, _)| k == key)
            .map(|(_, v)| v.clone())
            .unwrap_or_default()
    };
    assert_eq!(get("oauth_token"), "AT");
    assert_eq!(get("format"), "json");
    assert_eq!(get("title"), "Hello World");
    assert_eq!(get("description"), "a view");
    assert_eq!(get("tags"), "alpha beta upload");
    assert_eq!(get("content_type"), "1");
    assert!(!get("oauth_signature").is_empty());
}
