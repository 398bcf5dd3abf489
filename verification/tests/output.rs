use drawskill::output::Format;

#[test]
fn format_inference() {
    assert_eq!(Format::from_extension("PNG"), Some(Format::Png));
    assert_eq!(Format::from_extension(".pdf"), Some(Format::Pdf));
    assert_eq!(Format::from_extension("svg"), Some(Format::Svg));
    assert_eq!(Format::from_extension("txt"), None);
    assert_eq!(
        Format::from_path(std::path::Path::new("/tmp/a.svg")),
        Some(Format::Svg)
    );
}

#[test]
fn format_names_round_trip() {
    for f in [Format::Svg, Format::Png, Format::Pdf] {
        assert_eq!(Format::from_extension(f.as_str()), Some(f));
    }
    assert_eq!(Format::Png.as_str(), "png");
}

#[test]
fn format_from_paths() {
    assert_eq!(Format::from_path(std::path::Path::new("out/diagram.PDF")), Some(Format::Pdf));
    assert_eq!(Format::from_path(std::path::Path::new("diagram")), None);
    assert_eq!(Format::from_path(std::path::Path::new(".png")), None);
    assert_eq!(Format::from_path(std::path::Path::new("a.tar.svg")), Some(Format::Svg));
    assert_eq!(Format::from_extension("..svg"), Some(Format::Svg));
    assert_eq!(Format::from_path(std::path::Path::new("out.tar.PDF")), Some(Format::Pdf));
    assert_eq!(Format::from_path(std::path::Path::new("Makefile")), None);
    assert_eq!(Format::from_path(std::path::Path::new(".svg")), None);
    assert_eq!(Format::from_extension(""), None);
}
