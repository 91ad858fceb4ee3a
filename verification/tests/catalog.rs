use format_galaxy::catalog::{
    Converter, ConverterHash, ConverterId, ConverterVersion, FileFormat, FormatId, Galaxy,
};

fn conv1() -> Converter {
    Converter {
        name: "conv1".into(),
        desc: "....".into(),
        versions: vec![
            ConverterVersion {
                label: "0.1.0".to_string(),
                hash: ConverterHash("blabla my hash".to_string()),
            },
            ConverterVersion {
                label: "0.1.1".to_string(),
                hash: ConverterHash("blabla my hash 2".to_string()),
            },
        ],
    }
}

#[test]
fn index_test() {
    let converters = vec![(ConverterId(1), conv1()), (ConverterId(2), conv1())];
    let formats = vec![
        (
            FormatId(123),
            FileFormat {
                name: "Foo".to_string(),
                desc: "...".to_string(),
                extensions: vec![],
                converters,
            },
        ),
        (
            FormatId(55555),
            FileFormat {
                name: "Bar".to_string(),
                desc: "...".to_string(),
                extensions: vec![],
                converters: vec![],
            },
        ),
    ];
    let g = Galaxy { formats };
    println!("{:#?}", g);
}

#[test]
fn catalog_lookups() {
    let formats = vec![(
        FormatId(123),
        FileFormat {
            name: "Foo".to_string(),
            desc: "...".to_string(),
            extensions: vec!["foo".to_string()],
            converters: vec![(ConverterId(1), conv1())],
        },
    )];
    let g = Galaxy { formats };
    assert!(g.validate());
    let f = g.get_format(FormatId(123)).unwrap();
    assert_eq!(f.name, "Foo");
    assert!(g.get_format(FormatId(7)).is_none());
    let c = g.get_format_converter(FormatId(123), ConverterId(1)).unwrap();
    assert_eq!(c.name, "conv1");
    assert!(g.get_format_converter(FormatId(123), ConverterId(9)).is_none());
    let v = g.get_version(FormatId(123), ConverterId(1), 1).unwrap();
    assert_eq!(v.label, "0.1.1");
    assert_eq!(v.hash.0, "blabla my hash 2");
    assert!(g.get_version(FormatId(123), ConverterId(1), 2).is_none());
}

#[test]
fn validate_refuses_duplicate_ids_and_empty_versions() {
    let dup = Galaxy {
        formats: vec![
            (
                FormatId(1),
                FileFormat {
                    name: "A".to_string(),
                    desc: String::new(),
                    extensions: vec![],
                    converters: vec![],
                },
            ),
            (
                FormatId(1),
                FileFormat {
                    name: "B".to_string(),
                    desc: String::new(),
                    extensions: vec![],
                    converters: vec![],
                },
            ),
        ],
    };
    assert!(!dup.validate());

    let empty_versions = Galaxy {
        formats: vec![(
            FormatId(1),
            FileFormat {
                name: "A".to_string(),
                desc: String::new(),
                extensions: vec![],
                converters: vec![(
                    ConverterId(1),
                    Converter {
                        name: "c".to_string(),
                        desc: String::new(),
                        versions: vec![],
                    },
                )],
            },
        )],
    };
    assert!(!empty_versions.validate());
}
