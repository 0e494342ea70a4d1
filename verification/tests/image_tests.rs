use base64::Engine;
use oxideav_svg::filter::CrossOrigin;
use oxideav_svg::image::{
    image_extra_attrs, image_href_of, parse_image_href, write_image_element, CoordText, ImageAttrs, ImageHref,
};
use oxideav_svg::parser::Element;

#[test]
fn parses_external_href() {
    let r = parse_image_href("logo.png").unwrap();
    match r {
        ImageHref::External(s) => assert_eq!(s, "logo.png"),
        _ => panic!("expected external href"),
    }
}

#[test]
fn parses_data_uri_png_one_pixel() {
    // 1x1 transparent PNG, base64 of the canonical 67-byte PNG.
    let src = "data:image/png;base64,iVBORw0KGgoAAAANSUhEUgAAAAEAAAABCAQAAAC1HAwCAAAAC0lEQVR42mNkAAIAAAoAAv/lxKUAAAAASUVORK5CYII=";
    let r = parse_image_href(src).unwrap();
    match r {
        ImageHref::DataUri { mime, bytes } => {
            assert_eq!(mime, "image/png");
            // PNG signature.
            assert!(bytes.starts_with(&[0x89, 0x50, 0x4e, 0x47]));
        },
        _ => panic!("expected data URI"),
    }
}

#[test]
fn data_uri_without_base64_flag_falls_through_to_external() {
    let r = parse_image_href("data:text/plain,hello").unwrap();
    match r {
        ImageHref::External(s) => assert!(s.starts_with("data:text/plain,")),
        _ => panic!("expected external (non-base64 data URI)"),
    }
}

#[test]
fn round_trip_data_uri_preserves_bytes() {
    let png_bytes = b"\x89PNG\r\n\x1a\nfake-png-bytes";
    let encoded = base64::engine::general_purpose::STANDARD.encode(png_bytes);
    let src = format!("data:image/png;base64,{}", encoded);
    let href = parse_image_href(&src).unwrap();
    match &href {
        ImageHref::DataUri { mime, bytes } => {
            assert_eq!(mime, "image/png");
            assert_eq!(bytes, png_bytes);
        },
        _ => panic!(),
    }
    let re = href.to_href_attr();
    assert_eq!(re, src);
}

#[test]
fn empty_or_malformed_hrefs_are_rejected() {
    assert!(parse_image_href("").is_none());
    assert!(parse_image_href("   ").is_none());
    // No `,` after the header.
    assert!(parse_image_href("data:image/png;base64").is_none());
    // Not base64.
    assert!(parse_image_href("data:image/png;base64,@@@@").is_none());
}

#[test]
fn data_uri_header_details() {
    // Upper-case scheme, flag among other parameters in any case, payload
    // with line breaks, MIME type trimmed.
    match parse_image_href(" DATA: image/gif ;charset=x; BASE64 ,aGVs\n bG8= ").unwrap() {
        ImageHref::DataUri { mime, bytes } => {
            assert_eq!(mime, "image/gif");
            assert_eq!(bytes, b"hello".to_vec());
        },
        _ => panic!(),
    }
    // Mixed-case scheme is not a data URI.
    match parse_image_href("Data:image/gif;base64,aGVsbG8=").unwrap() {
        ImageHref::External(s) => assert_eq!(s, "Data:image/gif;base64,aGVsbG8="),
        _ => panic!(),
    }
}

#[test]
fn href_text_reads_back() {
    let h = ImageHref::DataUri { mime: "image/webp".to_string(), bytes: vec![0, 1, 2, 250, 251] };
    let text = h.to_href_attr();
    assert_eq!(text, "data:image/webp;base64,AAEC+vs=");
    match parse_image_href(&text).unwrap() {
        ImageHref::DataUri { mime, bytes } => {
            assert_eq!(mime, "image/webp");
            assert_eq!(bytes, vec![0, 1, 2, 250, 251]);
        },
        _ => panic!(),
    }
    let e = ImageHref::External("https://example.com/a.png".to_string());
    let t = e.to_href_attr();
    assert_eq!(t, "https://example.com/a.png");
    assert!(matches!(parse_image_href(&t), Some(ImageHref::External(u)) if u == t));
    let empty = ImageHref::DataUri { mime: "image/png".to_string(), bytes: Vec::new() };
    assert_eq!(empty.to_href_attr(), "data:image/png;base64,");
}

#[test]
fn unmodelled_image_attributes_are_kept_in_order() {
    let el = Element {
        name: "image".to_string(),
        attrs: vec![
            ("class".to_string(), "a".to_string()),
            ("href".to_string(), "x.png".to_string()),
            ("crossorigin".to_string(), "bogus".to_string()),
            ("width".to_string(), "50%".to_string()),
            ("data-k".to_string(), "v".to_string()),
        ],
        children: Vec::new(),
    };
    let kept = image_extra_attrs(&el, false);
    assert_eq!(
        kept,
        vec![
            ("class".to_string(), "a".to_string()),
            ("crossorigin".to_string(), "bogus".to_string()),
            ("data-k".to_string(), "v".to_string()),
        ]
    );
    let kept = image_extra_attrs(&el, true);
    assert_eq!(kept.len(), 2);
}

fn bare_attrs(href: ImageHref) -> ImageAttrs {
    ImageAttrs {
        id: None,
        x: None,
        y: None,
        width: None,
        height: None,
        transform: None,
        preserve_aspect_ratio: None,
        image_rendering: None,
        crossorigin: None,
        extra_attrs: Vec::new(),
        href,
    }
}

#[test]
fn image_element_minimal() {
    let mut out = String::from("<g>");
    write_image_element(&mut out, "  ", &bare_attrs(ImageHref::External("a.png".to_string())));
    assert_eq!(out, "<g>  <image href=\"a.png\"/>\n");
}

#[test]
fn image_element_attribute_order_and_escaping() {
    let mut a = bare_attrs(ImageHref::DataUri { mime: "image/png".to_string(), bytes: vec![1, 2, 3] });
    a.id = Some("p&q".to_string());
    a.x = Some(CoordText::Formatted("1.5".to_string()));
    a.y = Some(CoordText::Source("2em".to_string()));
    a.width = Some(CoordText::Source("50%".to_string()));
    a.height = Some(CoordText::Formatted("10".to_string()));
    a.transform = Some("matrix(1 0 0 1 5 0)".to_string());
    a.preserve_aspect_ratio = Some("xMidYMid slice".to_string());
    a.image_rendering = Some("pixelated".to_string());
    a.crossorigin = Some(CrossOrigin::UseCredentials);
    a.extra_attrs = vec![("data-k".to_string(), "a\"b".to_string())];
    let mut out = String::new();
    write_image_element(&mut out, "", &a);
    assert_eq!(
        out,
        "<image id=\"p&amp;q\" x=\"1.5\" y=\"2em\" width=\"50%\" height=\"10\" \
         transform=\"matrix(1 0 0 1 5 0)\" preserveAspectRatio=\"xMidYMid slice\" \
         image-rendering=\"pixelated\" crossorigin=\"use-credentials\" data-k=\"a&quot;b\" \
         href=\"data:image/png;base64,AQID\"/>\n"
    );
}

fn elem(name: &str, attrs: &[(&str, &str)]) -> Element {
    Element {
        name: name.to_string(),
        attrs: attrs.iter().map(|(k, v)| (k.to_string(), v.to_string())).collect(),
        children: Vec::new(),
    }
}

#[test]
fn xlink_href_is_honoured() {
    let href = image_href_of(&elem("image", &[("xlink:href", "x.png")])).unwrap();
    assert!(matches!(href, ImageHref::External(s) if s == "x.png"));
}

#[test]
fn missing_href_returns_none() {
    let href = image_href_of(&elem("image", &[("width", "1")]));
    assert!(href.is_none());
}

#[test]
fn href_is_trimmed_and_decoded() {
    let href = image_href_of(&elem("image", &[("HREF", "  data:image/gif;base64,AQID  ")])).unwrap();
    match href {
        ImageHref::DataUri { mime, bytes } => {
            assert_eq!(mime, "image/gif");
            assert_eq!(bytes, vec![1, 2, 3]);
        },
        _ => panic!("expected a data URI"),
    }
    assert!(image_href_of(&elem("image", &[("href", "   ")])).is_none());
}

#[test]
fn href_text_is_the_standard_padded_encoding() {
    for n in 0..10u8 {
        let bytes: Vec<u8> = (0..n).map(|i| i.wrapping_mul(37).wrapping_add(200)).collect();
        let h = ImageHref::DataUri { mime: "image/png".to_string(), bytes: bytes.clone() };
        assert_eq!(
            h.to_href_attr(),
            format!("data:image/png;base64,{}", base64::engine::general_purpose::STANDARD.encode(&bytes))
        );
    }
}
