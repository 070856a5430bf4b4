use wikilinks::{plan_name, rewrite_document, IndexBuilder, NamePlan, Rewrite, Summary};

/// A document of a corpus held in memory: the directory it is in, relative to
/// the root and with a `/` behind each part; its file name; its text.
#[derive(Clone, Debug, PartialEq)]
struct Doc {
    dir: String,
    name: String,
    body: String,
}

fn doc(dir: &str, name: &str, body: &str) -> Doc {
    Doc { dir: dir.to_string(), name: name.to_string(), body: body.to_string() }
}

/// Both passes over `corpus`. Returns the summary and the number of renames.
fn run(corpus: &mut Vec<Doc>) -> (Summary, usize) {
    let mut renames = 0;
    let mut builder = IndexBuilder::new();
    for d in corpus.iter_mut() {
        match plan_name(&d.name) {
            NamePlan::Rename(name) => {
                d.name = name;
                renames += 1;
            }
            NamePlan::Keep => {}
            NamePlan::NotDocument => continue,
        }
        assert!(builder.has_room());
        builder.add_document(format!("{}{}", d.dir, d.name));
    }
    let (index, mut summary) = builder.finish();
    for d in corpus.iter_mut() {
        if let NamePlan::NotDocument = plan_name(&d.name) {
            continue;
        }
        let outcome = rewrite_document(&d.body, &index);
        assert!(summary.can_record(outcome.links()));
        summary.record(outcome.links());
        if let Rewrite::Rewritten { body, .. } = outcome {
            d.body = body;
        }
    }
    (summary, renames)
}

fn sample() -> Vec<Doc> {
    vec![
        doc("", "Home Page.md", "Start at [[Getting Started]] or [[guides setup|the setup guide]]."),
        doc("", "Getting-Started.md", "Back to [[Home Page]]. See [[Missing Page]] and [[FAQ|faq]]."),
        doc("guides/", "Setup.md", "No links in here."),
        doc("guides/", "notes.txt", "[[Home Page]] is not touched here."),
        doc("", "faq.md", "[[Home Page]] [[home page]] [[HOME PAGE|home]]"),
    ]
}

#[test]
fn a_run_renames_indexes_and_rewrites() {
    let mut corpus = sample();
    let (summary, renames) = run(&mut corpus);
    assert_eq!(renames, 3);
    assert_eq!(summary.file_count(), 4);
    assert_eq!(summary.files_changed(), 3);
    assert_eq!(summary.links_changed(), 8);
    assert_eq!(
        corpus,
        vec![
            doc(
                "",
                "home_page.md",
                "Start at [getting_started](getting_started) or [the setup guide](guides/setup.md)."
            ),
            doc(
                "",
                "gettingstarted.md",
                "Back to [home_page](home_page.md). See [missing_page](missing_page) and [faq](faq.md)."
            ),
            doc("guides/", "setup.md", "No links in here."),
            doc("guides/", "notes.txt", "[[Home Page]] is not touched here."),
            doc("", "faq.md", "[home_page](home_page.md) [home_page](home_page.md) [home](home_page.md)"),
        ]
    );
}

#[test]
fn a_second_run_changes_nothing() {
    let mut corpus = sample();
    run(&mut corpus);
    let after_first = corpus.clone();
    let (summary, renames) = run(&mut corpus);
    assert_eq!(renames, 0);
    assert_eq!(summary.file_count(), 4);
    assert_eq!(summary.files_changed(), 0);
    assert_eq!(summary.links_changed(), 0);
    assert_eq!(corpus, after_first);
}

#[test]
fn a_document_without_links_keeps_its_text() {
    let mut corpus = vec![doc("", "plain.md", "just [text](plain.md) and a ] or two ]")];
    let (summary, renames) = run(&mut corpus);
    assert_eq!(renames, 0);
    assert_eq!(summary.file_count(), 1);
    assert_eq!(summary.files_changed(), 0);
    assert_eq!(summary.links_changed(), 0);
    assert_eq!(corpus[0].body, "just [text](plain.md) and a ] or two ]");
}

#[test]
fn documents_that_share_a_key_leave_the_later_in_the_index() {
    let mut corpus = vec![
        doc("a/", "b.md", ""),
        doc("", "a_b.md", ""),
        doc("", "reader.md", "[[a b]] [[A_B]]"),
    ];
    let (summary, _) = run(&mut corpus);
    assert_eq!(summary.file_count(), 3);
    assert_eq!(corpus[2].body, "[a_b](a_b.md) [a_b](a_b.md)");
}
