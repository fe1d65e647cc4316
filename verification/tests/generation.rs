use shader_provenance::driver::{
    build_uniforms_section, generate_shader_code, uniform_declarations, LibraryEntry,
    MaterialCode, MaterialEntity, ObjectEntity, ObjectKind, SceneModel, UniformKind,
    ValueUniform, ValueUniformKind,
};
use shader_provenance::numeral::format_usize;
use shader_provenance::{ErrId, ErrorId, LineRange};

const FULL_TEMPLATE: &str = "//%uniforms//%|//%textures//%|//%materials_defines//%|//%material_processing//%|//%intersection_functions//%|//%intersections//%|//%library//%|//%predefined_library//%";

#[test]
fn decimal_formatting() {
    assert_eq!(format_usize(0), "0");
    assert_eq!(format_usize(7), "7");
    assert_eq!(format_usize(10), "10");
    assert_eq!(format_usize(907), "907");
    assert_eq!(format_usize(18446744073709551615), "18446744073709551615");
}

#[test]
fn identifiers_follow_category_bases() {
    let material = MaterialEntity {
        name: "x".to_owned(),
        code: MaterialCode::Fixed(String::new()),
    };
    assert_eq!(material.identifier(3), ErrId(1003));
    let object = ObjectEntity::DebugMatrix("m".to_owned());
    assert_eq!(object.identifier(0), ErrId(2000));
    let entry = LibraryEntry { code: String::new() };
    assert_eq!(entry.identifier(12), ErrId(3012));
    assert_eq!(ErrId::default(), ErrId(0));
}

#[test]
fn matrix_uniforms_are_collected_and_deduplicated() {
    let objects = vec![
        ObjectEntity::Flat {
            kind: ObjectKind::Portal("a".to_owned(), "b".to_owned()),
            is_inside: "x".to_owned(),
        },
        ObjectEntity::DebugMatrix("a".to_owned()),
    ];
    let decls = uniform_declarations(&objects, &Vec::new());
    let names: Vec<&str> = decls.iter().map(|d| d.name.as_str()).collect();
    assert_eq!(
        names,
        vec![
            "a_mat",
            "a_mat_inv",
            "b_mat",
            "b_mat_inv",
            "a_to_b_mat_teleport",
            "b_to_a_mat_teleport",
        ]
    );
    assert!(decls.iter().all(|d| d.kind == UniformKind::Mat4));
}

#[test]
fn portal_on_one_matrix_gets_a_single_teleport() {
    let objects = vec![ObjectEntity::Complex {
        kind: ObjectKind::Portal("m".to_owned(), "m".to_owned()),
        intersect: "y".to_owned(),
    }];
    let uniforms = vec![ValueUniform { name: "speed".to_owned(), kind: ValueUniformKind::Int }];
    let decls = uniform_declarations(&objects, &uniforms);
    let names: Vec<&str> = decls.iter().map(|d| d.name.as_str()).collect();
    assert_eq!(names, vec!["m_mat", "m_mat_inv", "m_to_m_mat_teleport", "speed_u"]);
    assert_eq!(decls[3].kind, UniformKind::Int1);
}

#[test]
fn reserved_names_stay_out_of_the_document() {
    let uniforms = vec![
        ValueUniform { name: "speed".to_owned(), kind: ValueUniformKind::Float },
        ValueUniform { name: "_camera".to_owned(), kind: ValueUniformKind::Float },
    ];
    let decls = uniform_declarations(&Vec::new(), &uniforms);
    let section = build_uniforms_section(&decls);
    assert_eq!(section.storage, "uniform float speed_u;\n");
}

#[test]
fn generation_of_an_empty_scene() {
    let scene = SceneModel {
        uniforms: Vec::new(),
        textures: Vec::new(),
        materials: Vec::new(),
        objects: Vec::new(),
        library: Vec::new(),
    };
    let out = generate_shader_code(&scene, "A\n//%uniforms//%B//%textures//%//%material_processing//%//%materials_defines//%//%intersection_functions//%//%intersections//%//%library//%//%predefined_library//%\nZ", "P\n");
    assert_eq!(out.storage, "A\nBP\n\nZ");
    assert_eq!(out.line_numbers.get_identifier(1), None);
}

#[test]
fn generation_assigns_identifiers_by_category_and_position() {
    let scene = SceneModel {
        uniforms: vec![ValueUniform { name: "speed".to_owned(), kind: ValueUniformKind::Float }],
        textures: vec!["tex".to_owned()],
        materials: vec![MaterialEntity {
            name: "m0".to_owned(),
            code: MaterialCode::Custom("CODE\nLINE".to_owned()),
        }],
        objects: Vec::new(),
        library: vec![LibraryEntry { code: "LIB".to_owned() }],
    };
    let out = generate_shader_code(&scene, FULL_TEMPLATE, "P");
    assert_eq!(
        out.storage,
        "uniform float speed_u;\n|uniform sampler2D tex;\n|#define m0_M (USER_MATERIAL_OFFSET + 0)\n|} else if (i.material == m0_M) {\nCODE\nLINE\n|||LIB|P"
    );
    assert_eq!(out.line_numbers.get(ErrId(1000)), Some(LineRange::new(5, 7)));
    assert_eq!(out.line_numbers.get(ErrId(3000)), Some(LineRange::new(7, 8)));
    // a diagnostic on the custom body's second line maps back to line 2
    assert_eq!(out.line_numbers.get_identifier(6), Some((ErrId(1000), 2)));
}

#[test]
fn generation_scaffolds_objects() {
    let scene = SceneModel {
        uniforms: Vec::new(),
        textures: Vec::new(),
        materials: vec![MaterialEntity {
            name: "red".to_owned(),
            code: MaterialCode::Fixed("return material_simple(hit, r);\n".to_owned()),
        }],
        objects: vec![ObjectEntity::Flat {
            kind: ObjectKind::Simple("m".to_owned()),
            is_inside: "return 1;".to_owned(),
        }],
        library: Vec::new(),
    };
    let out = generate_shader_code(&scene, FULL_TEMPLATE, "");
    assert!(out.storage.contains("uniform mat4 m_mat;\n"));
    assert!(out.storage.contains("uniform mat4 m_mat_inv;\n"));
    assert!(out.storage.contains("#define red_M (USER_MATERIAL_OFFSET + 0)\n"));
    assert!(out.storage.contains("} else if (i.material == red_M) {\nreturn material_simple(hit, r);\n"));
    assert!(out.storage.contains("int is_inside_0(vec4 pos, float x, float y) {\nreturn 1;\n}\n"));
    assert!(out.storage.contains("hit = plane_intersect(r, m_mat_inv, get_normal(m_mat));\n"));
    // the one authored fragment is the object's containment routine
    let range = out.line_numbers.get(ErrId(2000)).unwrap();
    let lines: Vec<&str> = out.storage.split('\n').collect();
    assert_eq!(lines[range.start - 1], "return 1;");
    assert!(out.line_numbers.get(ErrId(1000)).is_none());
}
