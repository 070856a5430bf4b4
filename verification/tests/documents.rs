use wikilinks::{is_document_name, normalize_filename, plan_name, NamePlan};

#[test]
fn plan_name_asks_for_the_canonical_name() {
    assert_eq!(plan_name("File Name.md"), NamePlan::Rename("file_name.md".to_string()));
    assert_eq!(plan_name("File-Name.md"), NamePlan::Rename("filename.md".to_string()));
    assert_eq!(plan_name("a.b.md"), NamePlan::Rename("ab.md".to_string()));
    assert_eq!(plan_name("README.md"), NamePlan::Rename("readme.md".to_string()));
}

#[test]
fn plan_name_keeps_a_canonical_name() {
    assert_eq!(plan_name("file_name.md"), NamePlan::Keep);
    assert_eq!(plan_name("a.md"), NamePlan::Keep);
    assert_eq!(plan_name("_.md"), NamePlan::Keep);
    assert_eq!(plan_name("2024_01_notes.md"), NamePlan::Keep);
}

#[test]
fn plan_name_leaves_other_files_alone() {
    assert_eq!(plan_name("notes.txt"), NamePlan::NotDocument);
    assert_eq!(plan_name("notes"), NamePlan::NotDocument);
    assert_eq!(plan_name("notes.MD"), NamePlan::NotDocument);
    assert_eq!(plan_name("notes.md.bak"), NamePlan::NotDocument);
    assert_eq!(plan_name("md"), NamePlan::NotDocument);
    assert_eq!(plan_name(""), NamePlan::NotDocument);
}

#[test]
fn a_name_that_is_only_the_extension_is_no_document() {
    assert_eq!(plan_name(".md"), NamePlan::NotDocument);
    assert!(!is_document_name(".md"));
}

#[test]
fn a_stem_that_normalizes_to_nothing_leaves_the_extension() {
    assert_eq!(plan_name("-.md"), NamePlan::Rename(".md".to_string()));
    assert_eq!(plan_name("..md"), NamePlan::Rename(".md".to_string()));
}

#[test]
fn renaming_as_planned_settles_the_name() {
    for name in ["File Name.md", "a.b.md", "Ünï Code.md", "UPPER.md", "x--y  z.md"] {
        match plan_name(name) {
            NamePlan::Rename(renamed) => {
                assert_eq!(plan_name(&renamed), NamePlan::Keep, "after renaming {:?}", name)
            }
            other => panic!("{:?} should be renamed, not {:?}", name, other),
        }
    }
}

#[test]
fn planned_name_is_the_normalized_stem_with_the_extension() {
    for stem in ["File Name", "Release-Notes", "x", "Żółw 1"] {
        let name = format!("{}.md", stem);
        let expected = format!("{}.md", normalize_filename(stem));
        match plan_name(&name) {
            NamePlan::Rename(renamed) => assert_eq!(renamed, expected),
            NamePlan::Keep => assert_eq!(name, expected),
            NamePlan::NotDocument => panic!("{:?} is a document", name),
        }
    }
}

#[test]
fn is_document_name_goes_by_the_extension() {
    assert!(is_document_name("a.md"));
    assert!(is_document_name("Some File.md"));
    assert!(is_document_name("archive.tar.md"));
    assert!(is_document_name("..md"));
    assert!(!is_document_name("a.markdown"));
    assert!(!is_document_name("amd"));
    assert!(!is_document_name("a.md "));
    assert!(!is_document_name("a.Md"));
    assert!(!is_document_name(""));
}
