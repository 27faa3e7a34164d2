use wclean::aggregate::collect_refs;
use wclean::aggregate::merge_refs;
use wclean::paths::has_project_marker;
use wclean::paths::is_marker_name;
use wclean::paths::make_asset_path;
use wclean::strutil::contains_string;
use wclean::strutil::str_contains;
use wclean::depth::xml_depth_exec;
use wclean::depth::MAX_XML_DEPTH;
use wclean::unused::get_unused_wav;
use wclean::xml::parse_xml;
use wclean::xml::ParseError;

fn strings(v: &[&str]) -> Vec<String> {
    v.iter().map(|s| s.to_string()).collect()
}

fn sorted(mut v: Vec<String>) -> Vec<String> {
    v.sort();
    v
}

#[test]
fn classification_sfx() {
    let p = make_asset_path("R", "SFX", "a/b.wav");
    assert_eq!(p, "R\\Originals\\SFX\\a/b.wav");
}

#[test]
fn classification_voice() {
    let p = make_asset_path("R", "German", "a/b.wav");
    assert_eq!(p, "R\\Originals\\Voices\\German\\a/b.wav");
}

#[test]
fn scenario_one_used_one_unused() {
    let doc = "<WwiseDocument><Sound><Language>SFX</Language>\
               <AudioFile>hit.wav</AudioFile></Sound></WwiseDocument>";
    let refs = parse_xml("R", doc).unwrap();
    assert_eq!(refs, strings(&["R\\Originals\\SFX\\hit.wav"]));

    let assets = strings(&["R\\Originals\\SFX\\hit.wav", "R\\Originals\\SFX\\unused.wav"]);
    let unused = get_unused_wav(&refs, &assets);
    assert_eq!(unused, strings(&["R\\Originals\\SFX\\unused.wav"]));
}

#[test]
fn scenario_language_less_reference() {
    let doc = "<WwiseDocument><Sound>\
               <AudioFile>hit.wav</AudioFile></Sound></WwiseDocument>";
    let refs = parse_xml("R", doc).unwrap();
    assert_eq!(refs, Vec::<String>::new());
}

#[test]
fn voice_reference_uses_language_directory() {
    let doc = "<U><S><Language>French(Canada)</Language>\
               <AudioFile>vo/line01.wav</AudioFile></S></U>";
    let refs = parse_xml("/proj", doc).unwrap();
    assert_eq!(refs, strings(&["/proj\\Originals\\Voices\\French(Canada)\\vo/line01.wav"]));
}

#[test]
fn first_language_sibling_wins() {
    let doc = "<U><S><DefaultLanguage>SFX</DefaultLanguage><Language>English</Language>\
               <AudioFile>a.wav</AudioFile></S></U>";
    let refs = parse_xml("R", doc).unwrap();
    assert_eq!(refs, strings(&["R\\Originals\\SFX\\a.wav"]));
}

#[test]
fn root_element_reference_contributes_nothing() {
    let refs = parse_xml("R", "<AudioFile>x.wav</AudioFile>").unwrap();
    assert_eq!(refs, Vec::<String>::new());
}

#[test]
fn language_in_grandchild_is_not_a_sibling() {
    let doc = "<U><S><Meta><Language>SFX</Language></Meta>\
               <AudioFile>a.wav</AudioFile></S></U>";
    let refs = parse_xml("R", doc).unwrap();
    assert_eq!(refs, Vec::<String>::new());
}

#[test]
fn two_references_share_one_language_sibling() {
    let doc = "<U><S><!-- a comment --><Language>SFX</Language>\
               <AudioFile>a.wav</AudioFile><AudioFile>b.wav</AudioFile></S></U>";
    let refs = parse_xml("R", doc).unwrap();
    assert_eq!(
        refs,
        strings(&["R\\Originals\\SFX\\a.wav", "R\\Originals\\SFX\\b.wav"])
    );
}

#[test]
fn malformed_descriptor_fails_alone() {
    assert_eq!(parse_xml("R", "<open><unclosed>"), Err(ParseError::Malformed));
}

#[test]
fn over_deep_descriptor_is_refused_before_parsing() {
    let deep = "<a>".repeat(MAX_XML_DEPTH + 1);
    assert!(xml_depth_exec(&deep) > MAX_XML_DEPTH);
    assert_eq!(parse_xml("R", &deep), Err(ParseError::TooDeep));
}

#[test]
fn over_deep_descriptor_is_isolated() {
    let deep = "<a>".repeat(MAX_XML_DEPTH + 1);
    let good = "<U><S><Language>SFX</Language><AudioFile>keep.wav</AudioFile></S></U>";
    let refs = collect_refs("R", &vec![deep, good.to_string()]);
    assert_eq!(refs, strings(&["R\\Originals\\SFX\\keep.wav"]));
}

#[test]
fn depth_scan_matches_real_nesting() {
    // matched opens and closes keep the running depth flat
    let flat = format!("<r>{}</r>", "<x/>".repeat(2000));
    assert_eq!(xml_depth_exec(&flat), 2);
    assert!(parse_xml("R", &flat).is_ok());

    // close tags, comments and attribute quoting are all tracked
    let doc = "<U attr=\"a/>b\"><!-- </U> deep? --><S><Language>SFX</Language>\
               <AudioFile>a.wav</AudioFile></S></U>";
    assert_eq!(xml_depth_exec(doc), 3);
    let refs = parse_xml("R", doc).unwrap();
    assert_eq!(refs, strings(&["R\\Originals\\SFX\\a.wav"]));
}

#[test]
fn malformed_descriptor_is_isolated() {
    let good = "<U><S><Language>SFX</Language><AudioFile>keep.wav</AudioFile></S></U>";
    let bad = "this is not xml <<<";
    let refs = collect_refs("R", &strings(&[bad, good]));
    assert_eq!(refs, strings(&["R\\Originals\\SFX\\keep.wav"]));
}

#[test]
fn pipeline_is_idempotent_and_order_blind() {
    let d1 = "<U><S><Language>SFX</Language><AudioFile>one.wav</AudioFile></S></U>";
    let d2 = "<U><S><Language>English</Language><AudioFile>two.wav</AudioFile></S></U>";
    let assets = strings(&[
        "R\\Originals\\SFX\\one.wav",
        "R\\Originals\\Voices\\English\\two.wav",
        "R\\Originals\\SFX\\stale.wav",
    ]);
    let first = get_unused_wav(&collect_refs("R", &strings(&[d1, d2])), &assets);
    let second = get_unused_wav(&collect_refs("R", &strings(&[d1, d2])), &assets);
    let swapped = get_unused_wav(&collect_refs("R", &strings(&[d2, d1])), &assets);
    assert_eq!(first, second);
    assert_eq!(sorted(first.clone()), sorted(swapped));
    assert_eq!(first, strings(&["R\\Originals\\SFX\\stale.wav"]));
}

#[test]
fn empty_reference_set_leaves_all_assets_unused() {
    let assets = strings(&["a.wav", "b.wav"]);
    let unused = get_unused_wav(&Vec::new(), &assets);
    assert_eq!(unused, assets);
}

#[test]
fn merge_concatenates_worker_results() {
    let parts = vec![strings(&["a", "b"]), Vec::new(), strings(&["c"])];
    assert_eq!(merge_refs(&parts), strings(&["a", "b", "c"]));
}

#[test]
fn marker_names() {
    assert!(is_marker_name("Project.wproj"));
    assert!(is_marker_name("a.b.wproj"));
    assert!(!is_marker_name(".wproj"));
    assert!(!is_marker_name("wproj"));
    assert!(!is_marker_name("Project.wprojx"));
    assert!(!is_marker_name("Project.WPROJ"));
    assert!(has_project_marker(&strings(&["notes.txt", "Game.wproj"])));
    assert!(!has_project_marker(&strings(&["notes.txt", "Game.wav"])));
}

#[test]
fn string_helpers() {
    assert!(str_contains("ObjectLanguageRef", "Language"));
    assert!(!str_contains("AudioFile", "Language"));
    assert!(str_contains("abc", ""));
    let list = strings(&["x", "y"]);
    assert!(contains_string(&list, &"y".to_string()));
    assert!(!contains_string(&list, &"z".to_string()));
}
