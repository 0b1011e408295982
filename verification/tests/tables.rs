use sql_ast::ast::ddl::{Anchor, Fauna, Seed, DDL};
use sql_ast::ast::sql::Sql;
use sql_ast::parser::tree::Tree;

fn creatures_sql() -> String {
    [
        "CREATE TABLE Enzyme (",
        "    registry_number INT PRIMARY KEY,",
        "    substrate TEXT,",
        "    optimal_ph INT,",
        "    temperature_sensitive BOOLEAN,",
        "    active_site_count INT",
        ");",
        "",
        "CREATE TABLE Genome (",
        "    accession_code INT PRIMARY KEY,",
        "    chromosome_count INT,",
        "    gc_content INT,",
        "    is_circular BOOLEAN",
        ");",
        "",
        "CREATE TABLE Bug (",
        "    specimen_tag INT PRIMARY KEY,",
        "    wing_span INT,",
        "    colony_role TEXT,",
        "    venomous BOOLEAN,",
        "    antenna_length INT,",
        "    metamorphosis_complete BOOLEAN",
        ");",
    ]
    .join("\n")
}

#[test]
fn it_works() {
    let sql = creatures_sql();
    assert!(sql.contains("CREATE TABLE Enzyme"), "SQL should contain 'CREATE TABLE Enzyme'");
    assert!(sql.contains("CREATE TABLE Genome"), "SQL should contain 'CREATE TABLE Genome'");
    assert!(sql.contains("CREATE TABLE Bug"), "SQL should contain 'CREATE TABLE Bug'");
    let tree = Tree::parse(sql).expect("the source should parse");

    assert_eq!(tree.sqls.len(), 3, "Expected exactly 3 SQL statements");

    match &tree.sqls[0] {
        Sql::DDL(DDL::Seed(seed)) => {
            assert_eq!(seed.bud, "Enzyme");
            assert_eq!(seed.stems.len(), 5, "Enzyme should have 5 columns");

            // registry_number INT PRIMARY KEY
            let registry_col = &seed.stems[0];
            assert_eq!(registry_col.vein, "registry_number");
            assert_eq!(registry_col.fauna, Fauna::Int);
            assert_eq!(registry_col.anchors.len(), 1);
            assert_eq!(registry_col.anchors[0], Anchor::Nucleus);

            // substrate TEXT
            let substrate_col = &seed.stems[1];
            assert_eq!(substrate_col.vein, "substrate");
            assert_eq!(substrate_col.fauna, Fauna::Text);
            assert_eq!(substrate_col.anchors.len(), 0);

            // optimal_ph INT
            let ph_col = &seed.stems[2];
            assert_eq!(ph_col.vein, "optimal_ph");
            assert_eq!(ph_col.fauna, Fauna::Int);
            assert_eq!(ph_col.anchors.len(), 0);

            // temperature_sensitive BOOLEAN
            let temp_col = &seed.stems[3];
            assert_eq!(temp_col.vein, "temperature_sensitive");
            assert_eq!(temp_col.fauna, Fauna::Bool);
            assert_eq!(temp_col.anchors.len(), 0);

            // active_site_count INT
            let site_col = &seed.stems[4];
            assert_eq!(site_col.vein, "active_site_count");
            assert_eq!(site_col.fauna, Fauna::Int);
            assert_eq!(site_col.anchors.len(), 0);
        }
        _ => panic!("Expected DDL Seed statement for Enzyme"),
    }

    match &tree.sqls[1] {
        Sql::DDL(DDL::Seed(seed)) => {
            assert_eq!(seed.bud, "Genome");
            assert_eq!(seed.stems.len(), 4, "Genome should have 4 columns");

            let accession_col = &seed.stems[0];
            assert_eq!(accession_col.vein, "accession_code");
            assert_eq!(accession_col.fauna, Fauna::Int);
            assert_eq!(accession_col.anchors.len(), 1);
            assert_eq!(accession_col.anchors[0], Anchor::Nucleus);

            let chromosome_col = &seed.stems[1];
            assert_eq!(chromosome_col.vein, "chromosome_count");
            assert_eq!(chromosome_col.fauna, Fauna::Int);
            assert_eq!(chromosome_col.anchors.len(), 0);

            let gc_col = &seed.stems[2];
            assert_eq!(gc_col.vein, "gc_content");
            assert_eq!(gc_col.fauna, Fauna::Int);
            assert_eq!(gc_col.anchors.len(), 0);

            let circular_col = &seed.stems[3];
            assert_eq!(circular_col.vein, "is_circular");
            assert_eq!(circular_col.fauna, Fauna::Bool);
            assert_eq!(circular_col.anchors.len(), 0);
        }
        _ => panic!("Expected DDL Seed statement for Genome"),
    }

    match &tree.sqls[2] {
        Sql::DDL(DDL::Seed(seed)) => {
            assert_eq!(seed.bud, "Bug");
            assert_eq!(seed.stems.len(), 6, "Bug should have 6 columns");

            let tag_col = &seed.stems[0];
            assert_eq!(tag_col.vein, "specimen_tag");
            assert_eq!(tag_col.fauna, Fauna::Int);
            assert_eq!(tag_col.anchors.len(), 1);
            assert_eq!(tag_col.anchors[0], Anchor::Nucleus);

            let wing_col = &seed.stems[1];
            assert_eq!(wing_col.vein, "wing_span");
            assert_eq!(wing_col.fauna, Fauna::Int);
            assert_eq!(wing_col.anchors.len(), 0);

            let role_col = &seed.stems[2];
            assert_eq!(role_col.vein, "colony_role");
            assert_eq!(role_col.fauna, Fauna::Text);
            assert_eq!(role_col.anchors.len(), 0);

            let venom_col = &seed.stems[3];
            assert_eq!(venom_col.vein, "venomous");
            assert_eq!(venom_col.fauna, Fauna::Bool);
            assert_eq!(venom_col.anchors.len(), 0);

            let antenna_col = &seed.stems[4];
            assert_eq!(antenna_col.vein, "antenna_length");
            assert_eq!(antenna_col.fauna, Fauna::Int);
            assert_eq!(antenna_col.anchors.len(), 0);

            let metamorphosis_col = &seed.stems[5];
            assert_eq!(metamorphosis_col.vein, "metamorphosis_complete");
            assert_eq!(metamorphosis_col.fauna, Fauna::Bool);
            assert_eq!(metamorphosis_col.anchors.len(), 0);
        }
        _ => panic!("Expected DDL Seed statement for Bug"),
    }
}

#[test]
fn test_table_structures_detailed() {
    let sql = creatures_sql();
    let tree = Tree::parse(sql).expect("the source should parse");

    let expected_structures = [
        (
            "Enzyme",
            vec![
                ("registry_number", "Int", true),
                ("substrate", "Text", false),
                ("optimal_ph", "Int", false),
                ("temperature_sensitive", "Bool", false),
                ("active_site_count", "Int", false),
            ],
        ),
        (
            "Genome",
            vec![
                ("accession_code", "Int", true),
                ("chromosome_count", "Int", false),
                ("gc_content", "Int", false),
                ("is_circular", "Bool", false),
            ],
        ),
        (
            "Bug",
            vec![
                ("specimen_tag", "Int", true),
                ("wing_span", "Int", false),
                ("colony_role", "Text", false),
                ("venomous", "Bool", false),
                ("antenna_length", "Int", false),
                ("metamorphosis_complete", "Bool", false),
            ],
        ),
    ];

    for (table_index, (expected_table_name, expected_columns)) in
        expected_structures.iter().enumerate()
    {
        match &tree.sqls[table_index] {
            Sql::DDL(DDL::Seed(seed)) => {
                assert_eq!(seed.bud, *expected_table_name);
                assert_eq!(
                    seed.stems.len(),
                    expected_columns.len(),
                    "table {} should have {} columns",
                    expected_table_name,
                    expected_columns.len()
                );

                for (col_index, (expected_name, expected_type, has_primary_key)) in
                    expected_columns.iter().enumerate()
                {
                    let column = &seed.stems[col_index];

                    assert_eq!(
                        column.vein, *expected_name,
                        "column {} of table {}",
                        col_index, expected_table_name
                    );

                    let expected_fauna = match *expected_type {
                        "Int" => Fauna::Int,
                        "Text" => Fauna::Text,
                        "Bool" => Fauna::Bool,
                        _ => panic!("unexpected type: {}", expected_type),
                    };
                    assert_eq!(
                        column.fauna, expected_fauna,
                        "type of column {} of table {}",
                        expected_name, expected_table_name
                    );

                    if *has_primary_key {
                        assert_eq!(
                            column.anchors.len(),
                            1,
                            "column {} should have PRIMARY KEY",
                            expected_name
                        );
                        assert_eq!(
                            column.anchors[0],
                            Anchor::Nucleus,
                            "column {} should be PRIMARY KEY",
                            expected_name
                        );
                    } else {
                        assert_eq!(
                            column.anchors.len(),
                            0,
                            "column {} should have no constraints",
                            expected_name
                        );
                    }
                }
            }
            _ => panic!("expected a DDL Seed for table {}", expected_table_name),
        }
    }
}

#[test]
fn test_seed_complete() {
    let sql = "CREATE TABLE Product (id INT PRIMARY KEY, title TEXT, price INT, available BOOLEAN)"
        .to_string();
    let seed = Seed::from_input(sql).expect("the definition should parse");

    assert_eq!(seed.bud, "Product");

    assert_eq!(seed.stems.len(), 4);

    // id INT PRIMARY KEY
    let id_stem = &seed.stems[0];
    assert_eq!(id_stem.vein, "id");
    assert_eq!(id_stem.fauna, Fauna::Int);
    assert_eq!(id_stem.anchors.len(), 1);
    assert_eq!(id_stem.anchors[0], Anchor::Nucleus);

    // title TEXT
    let title_stem = &seed.stems[1];
    assert_eq!(title_stem.vein, "title");
    assert_eq!(title_stem.fauna, Fauna::Text);
    assert_eq!(title_stem.anchors.len(), 0);

    // price INT
    let price_stem = &seed.stems[2];
    assert_eq!(price_stem.vein, "price");
    assert_eq!(price_stem.fauna, Fauna::Int);
    assert_eq!(price_stem.anchors.len(), 0);

    // available BOOLEAN
    let available_stem = &seed.stems[3];
    assert_eq!(available_stem.vein, "available");
    assert_eq!(available_stem.fauna, Fauna::Bool);
    assert_eq!(available_stem.anchors.len(), 0);
}
