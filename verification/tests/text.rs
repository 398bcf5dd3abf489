use drawskill::text::{
    describe_style, family_of, group_families, has_family, FaceRecord, FaceStyle, FamilyChoice,
    FontFamily,
};

fn face(families: &[&str], ps: &str, style: FaceStyle, weight: u16, mono: bool) -> FaceRecord {
    FaceRecord {
        families: families.iter().map(|s| s.to_string()).collect(),
        post_script_name: ps.to_string(),
        style,
        weight,
        monospaced: mono,
    }
}

#[test]
fn generic_family_names() {
    assert_eq!(family_of("sans-serif"), FamilyChoice::SansSerif);
    assert_eq!(family_of(" Sans "), FamilyChoice::SansSerif);
    assert_eq!(family_of("SERIF"), FamilyChoice::Serif);
    assert_eq!(family_of("mono"), FamilyChoice::Monospace);
    assert_eq!(family_of("Monospace"), FamilyChoice::Monospace);
    assert_eq!(family_of("cursive"), FamilyChoice::Cursive);
    assert_eq!(family_of("fantasy"), FamilyChoice::Fantasy);
    assert_eq!(family_of(" DejaVu Sans "), FamilyChoice::Name(" DejaVu Sans ".to_string()));
}

#[test]
fn style_descriptions() {
    assert_eq!(describe_style(FaceStyle::Normal, 400), "Regular");
    assert_eq!(describe_style(FaceStyle::Italic, 400), "Italic");
    assert_eq!(describe_style(FaceStyle::Normal, 700), "Bold");
    assert_eq!(describe_style(FaceStyle::Italic, 700), "Bold Italic");
    assert_eq!(describe_style(FaceStyle::Oblique, 700), "Bold Oblique");
    assert_eq!(describe_style(FaceStyle::Normal, 300), "Regular (300)");
    assert_eq!(describe_style(FaceStyle::Oblique, 0), "Oblique (0)");
    assert_eq!(describe_style(FaceStyle::Italic, 65535), "Italic (65535)");
}

#[test]
fn faces_group_into_sorted_families() {
    let faces = vec![
        face(&["Zed"], "Zed-Regular", FaceStyle::Normal, 400, false),
        face(&["Alpha", "Alpha Alt"], "Alpha-Bold", FaceStyle::Normal, 700, false),
        face(&["Alpha"], "Alpha-Regular", FaceStyle::Normal, 400, false),
        face(&["Alpha"], "Alpha-Regular2", FaceStyle::Normal, 400, true),
        face(&[], "NoFamily-PS", FaceStyle::Italic, 400, false),
    ];
    let fams = group_families(&faces);
    assert_eq!(
        fams,
        vec![
            FontFamily {
                name: "Alpha".to_string(),
                styles: vec!["Bold".to_string(), "Regular".to_string()],
                monospaced: true,
            },
            FontFamily {
                name: "NoFamily-PS".to_string(),
                styles: vec!["Italic".to_string()],
                monospaced: false,
            },
            FontFamily {
                name: "Zed".to_string(),
                styles: vec!["Regular".to_string()],
                monospaced: false,
            },
        ]
    );
    assert_eq!(group_families(&Vec::new()), vec![]);
}

#[test]
fn family_lookup_ignores_case_and_sees_all_names() {
    let faces = vec![
        face(&["DejaVu Sans"], "DejaVuSans", FaceStyle::Normal, 400, false),
        face(&["Noto", "Noto Sans Alt"], "Noto", FaceStyle::Normal, 400, false),
    ];
    assert!(has_family(&faces, "dejavu sans"));
    assert!(has_family(&faces, "NOTO SANS ALT"));
    assert!(!has_family(&faces, "DejaVuSans"));
    assert!(!has_family(&Vec::new(), "x"));
}
