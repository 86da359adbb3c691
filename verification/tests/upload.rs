use emoji_kitchen::animations::AnimatedEmoji;
use emoji_kitchen::discord::{
    authorization, data_uri, data_uri_around, encodable_len, get_emoji_endpoint, CreateEmoji,
};
use emoji_kitchen::emoji::{get_emoji_map, init, Emoji, EmojiCatalog, EmojiSkinVariation, Options};
use emoji_kitchen::show::{label_for, read_labels, show_animated};
use emoji_kitchen::upload::{
    check_status, check_upload_body, codepoint_from_filename, found_line,
    get_emoji_data_from_dir, mime_type_for, upload_endpoint, upload_failure, upload_for,
    upload_status_line, SavedFile, UploadEmoji, UploadError, UploadResponseBody,
};
use emoji_kitchen::write::{json, json_emoji, json_pair};

fn entry(codepoint: &str, short_name: &str, sort_order: u16) -> Emoji {
    Emoji {
        codepoint: codepoint.to_string(),
        name: short_name.to_uppercase(),
        short_name: short_name.to_string(),
        category: "Food & Drink".to_string(),
        subcategory: "drink".to_string(),
        sort_order,
        skin_variations: Vec::new(),
    }
}

fn catalog() -> EmojiCatalog {
    get_emoji_map(&vec![
        entry("1f600", "grinning", 3),
        entry("2615", "coffee", 1),
        entry("1f468-200d-1f469", "family", 2),
        entry("1f603", "smiley", 3),
    ])
}

fn saved(filename: &str) -> SavedFile {
    SavedFile { filename: filename.to_string(), path: format!("dist_animated/{}", filename) }
}

#[test]
fn codepoint_is_the_second_part_of_the_file_name() {
    assert_eq!(codepoint_from_filename("smile.1f600.gif"), Some("1f600".to_string()));
    assert_eq!(
        codepoint_from_filename("family.1f468_200d_1f469.gif"),
        Some("1f468-200d-1f469".to_string())
    );
    assert_eq!(codepoint_from_filename("a.b.c.d"), Some("b".to_string()));
    assert_eq!(codepoint_from_filename("a.b"), Some("b".to_string()));
    assert_eq!(codepoint_from_filename("a."), Some("".to_string()));
    assert_eq!(codepoint_from_filename(".hidden"), Some("hidden".to_string()));
    assert_eq!(codepoint_from_filename("a..gif"), Some("".to_string()));
    assert_eq!(codepoint_from_filename("a_b.c_d-e.gif"), Some("c-d-e".to_string()));
}

#[test]
fn saved_animation_carries_its_codepoint() {
    for (codepoint, tags) in [
        ("1f600", vec![":smile:".to_string()]),
        ("1f468_200d_1f469", vec![":family:".to_string()]),
        ("2615", Vec::new()),
        ("", vec!["::".to_string()]),
    ] {
        let emoji = AnimatedEmoji { codepoint: codepoint.to_string(), tags };
        assert_eq!(
            codepoint_from_filename(&emoji.filename()),
            Some(codepoint.replace('_', "-"))
        );
    }
}

#[test]
fn file_name_without_a_dot_carries_no_codepoint() {
    assert_eq!(codepoint_from_filename("README"), None);
    assert_eq!(codepoint_from_filename(""), None);
    assert_eq!(codepoint_from_filename("1f600_gif"), None);
}

#[test]
fn upload_of_a_known_file() {
    let upload = upload_for(&saved("smile.1f600.gif"), &catalog(), &None).unwrap().unwrap();
    assert_eq!(upload.name, "grinning_animated");
    assert_eq!(upload.path, "dist_animated/smile.1f600.gif");
}

#[test]
fn upload_of_a_file_that_the_catalog_does_not_know() {
    assert!(upload_for(&saved("x.1f999.gif"), &catalog(), &None).unwrap().is_none());
    assert!(upload_for(&saved("x.1F600.gif"), &catalog(), &None).unwrap().is_none());
}

#[test]
fn upload_of_a_file_without_codepoint_fails() {
    match upload_for(&saved("README"), &catalog(), &None) {
        Err(UploadError::MissingCodepoint(name)) => assert_eq!(name, "README"),
        other => panic!("unexpected outcome: {:?}", other),
    }
}

#[test]
fn upload_with_a_name_query() {
    let wanted = Some("coffee".to_string());
    assert!(upload_for(&saved("smile.1f600.gif"), &catalog(), &wanted).unwrap().is_none());
    let upload = upload_for(&saved("hot.2615.gif"), &catalog(), &wanted).unwrap().unwrap();
    assert_eq!(upload.name, "coffee_animated");
    let other = Some("Coffee".to_string());
    assert!(upload_for(&saved("hot.2615.gif"), &catalog(), &other).unwrap().is_none());
}

#[test]
fn uploads_of_a_directory() {
    let files = vec![
        saved("smile.1f600.gif"),
        saved("unknown.1f999.gif"),
        saved("family.1f468_200d_1f469.gif"),
        saved("hot.2615.png"),
    ];
    let uploads = get_emoji_data_from_dir(&files, &catalog(), &None).unwrap();
    let names: Vec<&str> = uploads.iter().map(|u| u.name.as_str()).collect();
    assert_eq!(names, vec!["grinning_animated", "family_animated", "coffee_animated"]);
    assert_eq!(uploads[1].path, "dist_animated/family.1f468_200d_1f469.gif");

    let uploads = get_emoji_data_from_dir(&files, &catalog(), &Some("family".to_string())).unwrap();
    assert_eq!(uploads.len(), 1);
    assert_eq!(uploads[0].name, "family_animated");
    assert_eq!(get_emoji_data_from_dir(&Vec::new(), &catalog(), &None).unwrap().len(), 0);
}

#[test]
fn uploads_of_a_directory_fail_on_the_first_bad_file_name() {
    let files = vec![saved("smile.1f600.gif"), saved("LICENSE"), saved("Makefile")];
    match get_emoji_data_from_dir(&files, &catalog(), &None) {
        Err(UploadError::MissingCodepoint(name)) => assert_eq!(name, "LICENSE"),
        other => panic!("unexpected outcome: {:?}", other),
    }
}

#[test]
fn media_type_by_the_extension_of_the_path() {
    let gif = UploadEmoji { name: "n".to_string(), path: "dist/smile.1f600.gif".to_string() };
    assert_eq!(gif.mime_type().unwrap(), "image/gif");
    let png = UploadEmoji { name: "n".to_string(), path: "dist/4.3e9.a.b.c.d.PNG".to_string() };
    assert_eq!(png.mime_type().unwrap(), "image/png");
}

#[test]
fn unknown_extension_is_an_error() {
    let bmp = UploadEmoji { name: "n".to_string(), path: "dist/smile.1f600.bmp".to_string() };
    match bmp.mime_type() {
        Err(UploadError::UnsupportedExtension(ext)) => assert_eq!(ext, "bmp"),
        other => panic!("unexpected outcome: {:?}", other),
    }
    let none = UploadEmoji { name: "n".to_string(), path: "dist/smile".to_string() };
    assert!(matches!(none.mime_type(), Err(UploadError::MissingExtension)));
    let hidden = UploadEmoji { name: "n".to_string(), path: "dist/.gif".to_string() };
    assert!(matches!(hidden.mime_type(), Err(UploadError::MissingExtension)));
}

#[test]
fn extension_found_stands_behind_the_last_dot_of_the_path() {
    let archive = UploadEmoji { name: "n".to_string(), path: "dist/smile.gif.bak".to_string() };
    match archive.mime_type() {
        Err(UploadError::UnsupportedExtension(ext)) => assert_eq!(ext, "bak"),
        other => panic!("unexpected outcome: {:?}", other),
    }
    let nested = UploadEmoji { name: "n".to_string(), path: "dist.d/smile.bak.GIF".to_string() };
    assert_eq!(nested.mime_type().unwrap(), "image/gif");
    let empty = UploadEmoji { name: "n".to_string(), path: String::new() };
    assert!(matches!(empty.mime_type(), Err(UploadError::MissingExtension)));
    let plain = UploadEmoji { name: "n".to_string(), path: "dist/gif".to_string() };
    assert!(matches!(plain.mime_type(), Err(UploadError::MissingExtension)));
}

#[test]
fn media_type_for_an_extension() {
    assert_eq!(mime_type_for(Some("gif".to_string())).unwrap(), "image/gif");
    assert_eq!(mime_type_for(Some("PNG".to_string())).unwrap(), "image/png");
    assert!(matches!(mime_type_for(None), Err(UploadError::MissingExtension)));
    for ext in ["bmp", "jpeg", "", "gif2"] {
        match mime_type_for(Some(ext.to_string())) {
            Err(UploadError::UnsupportedExtension(given)) => assert_eq!(given, ext),
            other => panic!("unexpected outcome: {:?}", other),
        }
    }
}

#[test]
fn upload_requests_and_replies() {
    assert_eq!(upload_endpoint("acme"), "https://acme.slack.com/api/emoji.add");
    assert_eq!(upload_endpoint(""), "https://.slack.com/api/emoji.add");
    assert_eq!(check_status(200, "200 OK".to_string()), Ok(()));
    assert_eq!(check_status(299, "299".to_string()), Ok(()));
    assert_eq!(
        check_status(403, "403 Forbidden".to_string()),
        Err("403 Forbidden".to_string())
    );
    assert_eq!(check_status(199, "199".to_string()), Err("199".to_string()));
    assert_eq!(check_status(300, "300".to_string()), Err("300".to_string()));
    assert_eq!(check_upload_body(UploadResponseBody { ok: true, error: String::new() }), Ok(()));
    assert_eq!(
        check_upload_body(UploadResponseBody { ok: true, error: "ignored".to_string() }),
        Ok(())
    );
    assert_eq!(
        check_upload_body(UploadResponseBody { ok: false, error: "error_name_taken".to_string() }),
        Err("error_name_taken".to_string())
    );
}

#[test]
fn upload_report_lines() {
    let emoji = UploadEmoji {
        name: "coffee_animated".to_string(),
        path: "dist_animated/hot.2615.gif".to_string(),
    };
    assert_eq!(found_line(0), "\u{2139}\u{fe0f} 0 emoji found");
    assert_eq!(found_line(37), "\u{2139}\u{fe0f} 37 emoji found");
    assert_eq!(upload_status_line(&emoji, &Ok(())), "\u{2705} coffee_animated");
    assert_eq!(
        upload_status_line(&emoji, &Err("error_name_taken".to_string())),
        "\u{1f6ab} coffee_animated dist_animated/hot.2615.gif error_name_taken"
    );
    let failure = upload_failure(&emoji, "error_name_taken".to_string());
    assert_eq!(failure.description, "coffee_animated dist_animated/hot.2615.gif");
    assert_eq!(failure.detail, "error_name_taken");
    assert_eq!(
        failure.line(),
        "\u{1f6ab} coffee_animated dist_animated/hot.2615.gif error_name_taken"
    );
}

#[test]
fn guild_requests() {
    assert_eq!(get_emoji_endpoint("1234"), "https://discord.com/api/v10/guilds/1234/emojis");
    assert_eq!(authorization("abc.def"), "Bot abc.def");
}

#[test]
fn image_as_a_data_uri() {
    assert_eq!(data_uri("image/png", b"hi"), "data:image/png;base64,aGk=");
    assert_eq!(data_uri("image/png", b""), "data:image/png;base64,");
    assert_eq!(data_uri("image/gif", b"hi!"), "data:image/gif;base64,aGkh");
    assert_eq!(data_uri("image/gif", &[0xfb, 0xff, 0xfe, 0x00]), "data:image/gif;base64,+//+AA==");
    assert_eq!(data_uri_around("image/png", "QUJD"), "data:image/png;base64,QUJD");
    assert!(encodable_len(0));
    assert!(encodable_len(2));
    assert!(encodable_len(usize::MAX / 4 * 3));
    assert!(!encodable_len(usize::MAX / 4 * 3 + 1));
    assert!(!encodable_len(usize::MAX));
    let request = CreateEmoji::new("test_delete", "image/png", b"hi");
    assert_eq!(request.name, "test_delete");
    assert_eq!(request.image, "data:image/png;base64,aGk=");
    assert!(request.roles.is_empty());
}

#[test]
fn manifest_entries_spell_out_both_sides() {
    let mut base = entry("1F600", "GRINNING", 3);
    base.skin_variations.push((
        "1F3FB".to_string(),
        EmojiSkinVariation { codepoint: "1F600-1F3FB".to_string() },
    ));
    base.skin_variations.push((
        "1F3FC".to_string(),
        EmojiSkinVariation { codepoint: "1F600-1F3FC".to_string() },
    ));
    let catalog = get_emoji_map(&vec![base, entry("2615", "coffee", 1)]);
    let db = init(Options { name: None }, "3e9/2615/2615\n3e9/1f600/2615", &catalog).unwrap();
    let manifest = json(&db.pairs);
    assert_eq!(manifest.len(), 2);
    assert_eq!(manifest[0].name, "coffee_coffee");
    assert_eq!(manifest[1].name, "grinning_coffee");
    assert_eq!(
        manifest[1].src,
        "https://www.gstatic.com/android/keyboard/emojikitchen/20201001/u1f600/u1f600_u2615.png"
    );
    assert_eq!(manifest[1].sort_order, 4);
    assert_eq!(manifest[1].d, "3e9");
    assert_eq!(manifest[1].base.codepoint, "1f600");
    assert_eq!(manifest[1].base.name, "GRINNING");
    assert_eq!(manifest[1].base.short_name, "grinning");
    assert_eq!(manifest[1].base.category, "Food & Drink");
    assert_eq!(manifest[1].base.subcategory, "drink");
    assert_eq!(manifest[1].base.sort_order, 3);
    assert_eq!(
        manifest[1].base.skin_variations,
        vec![
            ("1F3FB".to_string(), "1f600-1f3fb".to_string()),
            ("1F3FC".to_string(), "1f600-1f3fc".to_string())
        ]
    );
    assert_eq!(manifest[1].pair.codepoint, "2615");
    assert_eq!(manifest[1].pair.sort_order, 1);
    assert!(manifest[1].pair.skin_variations.is_empty());
    assert_eq!(json(&Vec::new()).len(), 0);

    let single = json_pair(&db.pairs[0]);
    assert_eq!(single.name, "coffee_coffee");
    assert_eq!(single.sort_order, 2);
    let side = json_emoji(&db.pairs[1].base);
    assert_eq!(side.codepoint, "1f600");
    assert_eq!(side.skin_variations.len(), 2);
}

#[test]
fn label_of_a_saved_animation() {
    let label = label_for(&"smile.1f600.gif".to_string(), &catalog()).unwrap().unwrap();
    assert_eq!(label.sort_order, 3);
    assert_eq!(label.text, ":grinning_animated: ");
    assert!(label_for(&"x.1f999.gif".to_string(), &catalog()).unwrap().is_none());
    assert_eq!(label_for(&"README".to_string(), &catalog()).unwrap_err(), "README");
}

#[test]
fn labels_in_the_order_of_the_files() {
    let names = vec![
        "smile.1f600.gif".to_string(),
        "unknown.1f999.gif".to_string(),
        "hot.2615.gif".to_string(),
    ];
    let labels = read_labels(&names, &catalog()).unwrap();
    let texts: Vec<&str> = labels.iter().map(|l| l.text.as_str()).collect();
    assert_eq!(texts, vec![":grinning_animated: ", ":coffee_animated: "]);
}

#[test]
fn listing_is_sorted_by_the_order_of_the_catalog() {
    let names = vec![
        "smiley.1f603.gif".to_string(),
        "smile.1f600.gif".to_string(),
        "family.1f468_200d_1f469.gif".to_string(),
        "unknown.1f999.gif".to_string(),
        "hot.2615.gif".to_string(),
    ];
    let labels = show_animated(&names, &catalog()).unwrap();
    let texts: Vec<&str> = labels.iter().map(|l| l.text.as_str()).collect();
    assert_eq!(
        texts,
        vec![
            ":coffee_animated: ",
            ":family_animated: ",
            ":smiley_animated: ",
            ":grinning_animated: "
        ]
    );
    assert_eq!(show_animated(&Vec::new(), &catalog()).unwrap().len(), 0);
    let bad = vec!["hot.2615.gif".to_string(), "Makefile".to_string()];
    assert_eq!(show_animated(&bad, &catalog()).unwrap_err(), "Makefile");
}
