use format_galaxy::catalog::{
    Converter, ConverterHash, ConverterId, ConverterVersion, FileFormat, FormatId, Galaxy,
};
use format_galaxy::container::FileType;
use format_galaxy::errors::HostError;
use format_galaxy::selection::{candidate_formats, select_plugin, Answer, ConverterSelection};

fn two_version_converter() -> Converter {
    Converter {
        name: "conv".to_string(),
        desc: String::new(),
        versions: vec![
            ConverterVersion {
                label: "0.1.0".to_string(),
                hash: ConverterHash("hash-a".to_string()),
            },
            ConverterVersion {
                label: "0.1.1".to_string(),
                hash: ConverterHash("hash-b".to_string()),
            },
        ],
    }
}

fn catalog_a_b() -> Galaxy {
    Galaxy {
        formats: vec![
            (
                FormatId(1),
                FileFormat {
                    name: "A".to_string(),
                    desc: String::new(),
                    extensions: vec!["a".to_string()],
                    converters: vec![(ConverterId(0), two_version_converter())],
                },
            ),
            (
                FormatId(2),
                FileFormat {
                    name: "B".to_string(),
                    desc: String::new(),
                    extensions: vec!["b".to_string()],
                    converters: vec![(ConverterId(0), two_version_converter())],
                },
            ),
        ],
    }
}

#[test]
fn selection_for_file_b() {
    let g = catalog_a_b();
    assert!(g.validate());
    let ft = FileType::Ext(Some("b".to_string()));
    // The "b" filter leaves a single candidate, so its format is seated at
    // once.  Versions are shown newest first: ["0.1.1", "0.1.0"]; picking
    // the second shown entry is storage index 0, the label "0.1.0".
    let answers = vec![Answer::Pick(0), Answer::Pick(1)];
    let sel = select_plugin(&g, &ft, &answers).unwrap().unwrap();
    assert_eq!(
        sel,
        ConverterSelection { format_id: FormatId(2), converter_id: ConverterId(0), version_idx: 0 }
    );
    let f = g.get_format(sel.format_id).unwrap();
    let c = f.get_converter(sel.converter_id).unwrap();
    assert_eq!(c.versions[sel.version_idx].label, "0.1.0");
    assert_eq!(c.versions[sel.version_idx].hash.0, "hash-a");
}

#[test]
fn selection_is_deterministic_across_runs() {
    let g = catalog_a_b();
    let ft = FileType::Ext(None);
    let answers = vec![Answer::Pick(1), Answer::Pick(0), Answer::Pick(0)];
    let first = select_plugin(&g, &ft, &answers).unwrap();
    let second = select_plugin(&g, &ft, &answers).unwrap();
    assert_eq!(first, second);
    assert!(first.is_some());
}

#[test]
fn back_and_exit() {
    let g = catalog_a_b();
    let ft = FileType::Ext(None);
    // Pick format B, back out, pick format A, converter, newest version.
    let answers = vec![
        Answer::Pick(1),
        Answer::Back,
        Answer::Pick(0),
        Answer::Pick(0),
        Answer::Pick(0),
    ];
    let sel = select_plugin(&g, &ft, &answers).unwrap().unwrap();
    assert_eq!(sel.format_id, FormatId(1));
    assert_eq!(sel.version_idx, 1);

    let aborted = select_plugin(&g, &ft, &vec![Answer::Exit]).unwrap();
    assert!(aborted.is_none());

    let exhausted = select_plugin(&g, &ft, &vec![Answer::Pick(0)]).unwrap();
    assert!(exhausted.is_none());
}

#[test]
fn unknown_extension_falls_back_to_all_formats() {
    let g = catalog_a_b();
    let ft = FileType::Ext(Some("zzz".to_string()));
    let (cands, advisory) = candidate_formats(&g, &ft);
    assert!(advisory);
    assert_eq!(cands, vec![0, 1]);
    // With both formats offered, the dialogue asks for the format first.
    let answers = vec![Answer::Pick(0), Answer::Pick(0), Answer::Pick(0)];
    let sel = select_plugin(&g, &ft, &answers).unwrap().unwrap();
    assert_eq!(sel.format_id, FormatId(1));
}

#[test]
fn tagged_file_forces_its_format() {
    let g = catalog_a_b();
    let ft = FileType::FormatId(FormatId(2));
    let answers = vec![Answer::Pick(0), Answer::Pick(0)];
    let sel = select_plugin(&g, &ft, &answers).unwrap().unwrap();
    assert_eq!(sel.format_id, FormatId(2));
    assert_eq!(sel.version_idx, 1);
}

#[test]
fn unknown_format_and_empty_catalog_are_errors() {
    let g = catalog_a_b();
    let ft = FileType::FormatId(FormatId(99));
    assert_eq!(select_plugin(&g, &ft, &vec![]), Err(HostError::UnknownFormat));

    let empty = Galaxy { formats: vec![] };
    let ft2 = FileType::Ext(None);
    assert_eq!(
        select_plugin(&empty, &ft2, &vec![]),
        Err(HostError::NoCandidateConverter)
    );
}
