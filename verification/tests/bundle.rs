use appearance_profiles::{
    centered_offset, read_prepared_asset, read_prepared_pixels, rgba_to_xrgb8888_le,
    tile_origins, write_prepared_pixels, write_prepared_xrgb, AssetProblem, Error, Fit,
    OutputIdentity, PixelFormat, PreparedBackground, PreparedBundle, BUNDLE_VERSION,
};

fn entry(format: PixelFormat, width: u32, height: u32, asset: &str) -> PreparedBackground {
    PreparedBackground {
        selectors: vec!["DP-1".into()],
        width,
        height,
        fit: Fit::Fill,
        format,
        asset: asset.into(),
    }
}

#[test]
fn prepared_bundle_resolves_exact_output_geometry() {
    let bundle = PreparedBundle {
        backgrounds: vec![PreparedBackground {
            selectors: vec!["DP-1".into(), "desc:Dell Panel".into()],
            width: 3840,
            height: 2160,
            fit: Fit::Fill,
            format: PixelFormat::Rgba8,
            asset: "backgrounds/dell.rgba".into(),
        }],
        ..PreparedBundle::default()
    };
    let output = OutputIdentity::new("DP-1", Some("Dell Panel".into()));
    assert!(bundle.resolve(&output, 3840, 2160, Fit::Fill).is_some());
    assert!(bundle.resolve(&output, 1920, 1080, Fit::Fill).is_none());
}

#[test]
fn prepared_bundle_resolves_the_first_match_by_description_or_fit() {
    let mut first = entry(PixelFormat::Rgba8, 1920, 1080, "a.rgba");
    first.selectors = vec!["desc:Dell Panel".into()];
    let mut second = entry(PixelFormat::Xrgb8888Le, 1920, 1080, "b.xrgb");
    second.selectors = vec!["HDMI-A-1".into(), "desc:Dell Panel".into()];
    let tiled = PreparedBackground {
        fit: Fit::Tile,
        ..entry(PixelFormat::Rgba8, 1920, 1080, "c.rgba")
    };
    let bundle = PreparedBundle {
        backgrounds: vec![first, second, tiled],
        ..PreparedBundle::default()
    };
    let by_desc = OutputIdentity::new("DP-9", Some("Dell Panel".into()));
    assert_eq!(
        bundle.resolve(&by_desc, 1920, 1080, Fit::Fill).unwrap().asset,
        "a.rgba"
    );
    let by_connector = OutputIdentity::new("DP-1", None);
    assert_eq!(
        bundle.resolve(&by_connector, 1920, 1080, Fit::Tile).unwrap().asset,
        "c.rgba"
    );
    assert!(bundle.resolve(&by_connector, 1920, 1080, Fit::Fill).is_none());
}

#[test]
fn prepared_pixel_file_validates_size_and_magic() {
    let path = "/tmp/appearance-assets/test.rgba";
    let pixels = vec![7; 4 * 3 * 2];
    let file = write_prepared_pixels(path, &pixels, 3, 2).unwrap();
    let background = entry(PixelFormat::Rgba8, 3, 2, path);
    assert_eq!(read_prepared_pixels(&background, &file).unwrap(), pixels);
}

#[test]
fn xrgb_asset_round_trips_and_converts_channel_order() {
    let path = "/tmp/appearance-xrgb/test.xrgb";
    let xrgb = rgba_to_xrgb8888_le(&[0x11, 0x22, 0x33, 0xff]);
    assert_eq!(xrgb, [0x33, 0x22, 0x11, 0]);
    let file = write_prepared_xrgb(path, &xrgb, 1, 1).unwrap();
    let background = entry(PixelFormat::Xrgb8888Le, 1, 1, path);
    assert_eq!(read_prepared_asset(&background, &file).unwrap().bytes, xrgb);
}

#[test]
fn written_assets_start_with_their_format_magic() {
    let file = write_prepared_pixels("x.rgba", &[1, 2, 3, 4], 1, 1).unwrap();
    assert_eq!(file, [b'A', b'P', b'R', b'G', b'B', b'A', b'1', 0, 1, 2, 3, 4]);
    let file = write_prepared_xrgb("x.xrgb", &[1, 2, 3, 4], 1, 1).unwrap();
    assert_eq!(file, [b'A', b'P', b'X', b'R', b'G', b'B', b'1', 0, 1, 2, 3, 4]);
}

#[test]
fn writing_the_wrong_number_of_pixel_bytes_is_refused() {
    match write_prepared_pixels("out.rgba", &[0; 7], 1, 2) {
        Err(Error::Asset { path, problem }) => {
            assert_eq!(path, "out.rgba");
            assert_eq!(problem, AssetProblem::WrongLength { got: 7, expected: 8 });
        }
        other => panic!("unexpected {:?}", other),
    }
    assert!(write_prepared_xrgb("out.xrgb", &[0; 9], 1, 2).is_err());
}

#[test]
fn malformed_assets_are_refused() {
    let background = entry(PixelFormat::Rgba8, 1, 1, "bad.rgba");
    let good = write_prepared_pixels("bad.rgba", &[9, 9, 9, 9], 1, 1).unwrap();
    let mut bad_magic = good.clone();
    bad_magic[3] = b'X';
    let short = &good[..good.len() - 1];
    let mut long = good.clone();
    long.push(0);
    for bytes in [bad_magic.as_slice(), short, long.as_slice(), &[]] {
        match read_prepared_asset(&background, bytes) {
            Err(Error::Asset { path, problem }) => {
                assert_eq!(path, "bad.rgba");
                assert_eq!(problem, AssetProblem::Malformed { expected: 4 });
            }
            other => panic!("unexpected {:?}", other),
        }
    }
}

#[test]
fn assets_of_one_format_are_refused_as_the_other() {
    let file = write_prepared_xrgb("a.xrgb", &[1, 2, 3, 0], 1, 1).unwrap();
    let as_rgba = entry(PixelFormat::Rgba8, 1, 1, "a.xrgb");
    assert!(read_prepared_asset(&as_rgba, &file).is_err());
}

#[test]
fn xrgb_assets_are_not_rgba_pixels() {
    let file = write_prepared_xrgb("a.xrgb", &[1, 2, 3, 0], 1, 1).unwrap();
    let background = entry(PixelFormat::Xrgb8888Le, 1, 1, "a.xrgb");
    match read_prepared_pixels(&background, &file) {
        Err(Error::Asset { path, problem }) => {
            assert_eq!(path, "a.xrgb");
            assert_eq!(problem, AssetProblem::NotRgba8);
        }
        other => panic!("unexpected {:?}", other),
    }
    let prepared = read_prepared_asset(&background, &file).unwrap();
    assert_eq!(prepared.width, 1);
    assert_eq!(prepared.height, 1);
    assert_eq!(prepared.format, PixelFormat::Xrgb8888Le);
}

#[test]
fn conversion_drops_incomplete_trailing_pixels() {
    let xrgb = rgba_to_xrgb8888_le(&[1, 2, 3, 4, 5, 6, 7, 8, 9, 10]);
    assert_eq!(xrgb, [3, 2, 1, 0, 7, 6, 5, 0]);
    assert!(rgba_to_xrgb8888_le(&[]).is_empty());
}

#[test]
fn bundle_load_resolves_relative_assets_and_checks_version() {
    let parsed = PreparedBundle {
        tokens: Some("tokens.json".into()),
        backgrounds: vec![
            entry(PixelFormat::Rgba8, 1, 1, "backgrounds/a.rgba"),
            entry(PixelFormat::Rgba8, 1, 1, "/opt/b.rgba"),
        ],
        ..PreparedBundle::default()
    };
    let loaded =
        PreparedBundle::load("/var/lib/appearance-profiles/users/mason/bundle.toml", parsed)
            .unwrap();
    assert_eq!(loaded.version, BUNDLE_VERSION);
    assert_eq!(
        loaded.tokens,
        Some("/var/lib/appearance-profiles/users/mason/tokens.json".into())
    );
    assert_eq!(
        loaded.backgrounds[0].asset,
        "/var/lib/appearance-profiles/users/mason/backgrounds/a.rgba"
    );
    assert_eq!(loaded.backgrounds[1].asset, "/opt/b.rgba");
    assert_eq!(loaded.backgrounds[1].selectors, vec!["DP-1".to_string()]);
    let wrong = PreparedBundle {
        version: 7,
        ..PreparedBundle::default()
    };
    match PreparedBundle::load("bundle.toml", wrong) {
        Err(Error::Version(v)) => assert_eq!(v, 7),
        other => panic!("unexpected {:?}", other),
    }
}

#[test]
fn centring_rounds_towards_negative_infinity() {
    assert_eq!(centered_offset(1920, 1000), 460);
    assert_eq!(centered_offset(1920, 1921), -1);
    assert_eq!(centered_offset(100, 103), -2);
    assert_eq!(centered_offset(0, 0), 0);
}

#[test]
fn tiles_cover_the_output_from_the_origin() {
    assert_eq!(tile_origins(10, 4), vec![0, 4, 8]);
    assert_eq!(tile_origins(8, 4), vec![0, 4]);
    assert!(tile_origins(0, 3).is_empty());
}

#[test]
fn rgba_pixels_agree_with_the_asset_read() {
    let background = entry(PixelFormat::Rgba8, 1, 1, "p.rgba");
    let good = write_prepared_pixels("p.rgba", &[5, 6, 7, 8], 1, 1).unwrap();
    assert_eq!(
        read_prepared_pixels(&background, &good).unwrap(),
        read_prepared_asset(&background, &good).unwrap().bytes
    );
    let bad = &good[..5];
    match (
        read_prepared_pixels(&background, bad),
        read_prepared_asset(&background, bad),
    ) {
        (Err(Error::Asset { problem: a, .. }), Err(Error::Asset { problem: b, .. })) => {
            assert_eq!(a, b)
        }
        other => panic!("unexpected {:?}", other),
    }
}

#[test]
fn conversion_works_pixel_by_pixel() {
    let first = [1, 2, 3, 4];
    let second = [5, 6, 7, 8, 9];
    let mut both = first.to_vec();
    both.extend_from_slice(&second);
    let mut expected = rgba_to_xrgb8888_le(&first);
    expected.extend(rgba_to_xrgb8888_le(&second));
    assert_eq!(rgba_to_xrgb8888_le(&both), expected);
}
