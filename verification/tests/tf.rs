use cloud_stack::stack::lambda::{LambdaFunction, LambdaRuntime};
use cloud_stack::stack::iam::role::Role;
use cloud_stack::stack::shared;
use cloud_stack::stack::tf_read::{read_back, read_line, read_object};
use cloud_stack::stack::tf::{
    address, reference, Terraform, TerraformEntity, TfDataType, TfField, TfResource, TfVar,
};

fn text(s: &str) -> TfField {
    TfField::String(s.to_string())
}

#[test]
fn combine_puts_a_line_break_between() {
    let a = Terraform("a".to_string());
    let b = Terraform("b".to_string());
    let c = Terraform("c".to_string());
    assert_eq!(a.combine(&b).to_string(), "a\nb");
    assert_eq!(a.combine(&b).combine(&c).to_string(), a.combine(&b.combine(&c)).to_string());
    assert_eq!(Terraform::default().to_string(), "");
    assert_eq!(a.combine(&Terraform::default()).to_string(), "a\n");
}

#[test]
fn references_render_as_dotted_paths() {
    let resource = TfVar::Resource {
        resource_name: "aws_iam_role".to_string(),
        resource_identifier: "role_1".to_string(),
        field: "arn".to_string(),
    };
    assert_eq!(resource.to_tf_string(), "aws_iam_role.role_1.arn");
    let data = TfVar::Data {
        data_name: "aws_acm_certificate".to_string(),
        data_identifier: "certificate_1".to_string(),
        field: "arn".to_string(),
    };
    assert_eq!(data.to_tf_string(), "data.aws_acm_certificate.certificate_1.arn");
    assert_eq!(
        reference(TfDataType::Data, "t", "i", "f").to_tf_string(),
        "data.t.i.f"
    );
    assert_eq!(reference(TfDataType::Resource, "t", "i", "f").to_tf_string(), "t.i.f");
    assert_eq!(address(TfDataType::Resource, "t", "i"), "t.i");
    assert_eq!(address(TfDataType::Data, "t", "i"), "data.t.i");
}

#[test]
fn values_render_by_kind() {
    assert_eq!(TfField::Raw("sha1(x)".to_string()).to_tf_string(), "sha1(x)");
    assert_eq!(text("prod").to_tf_string(), "\"prod\"");
    assert_eq!(TfField::List(vec![]).to_tf_string(), "[]");
    assert_eq!(TfField::List(vec![text("a")]).to_tf_string(), "[\"a\"]");
    assert_eq!(
        TfField::List(vec![text("a"), TfField::Raw("b".to_string())]).to_tf_string(),
        "[\"a\", b]"
    );
    assert_eq!(TfField::Object(vec![]).to_tf_string(), "{\n\t\n}");
    assert_eq!(
        TfField::Object(vec![
            ("a".to_string(), text("1")),
            ("nested".to_string(), TfField::Object(vec![("b".to_string(), text("2"))])),
        ])
        .to_tf_string(),
        "{\n\ta = \"1\"\n\tnested {\n\tb = \"2\"\n}\n}"
    );
    assert_eq!(text("x").eq_prefix(), "= ");
    assert_eq!(TfField::Object(vec![]).eq_prefix(), "");
    assert_eq!(TfField::List(vec![]).eq_prefix(), "= ");
}

#[test]
fn an_object_holds_no_name_twice() {
    let made = TfField::object(vec![
        ("a".to_string(), text("1")),
        ("b".to_string(), text("2")),
        ("a".to_string(), text("3")),
        ("c".to_string(), text("4")),
        ("b".to_string(), text("5")),
    ]);
    assert_eq!(made.to_tf_string(), "{\n\ta = \"3\"\n\tb = \"5\"\n\tc = \"4\"\n}");
    assert_eq!(TfField::object(vec![]).to_tf_string(), "{\n\t\n}");
    let given = TfField::Object(vec![("a".to_string(), text("1")), ("a".to_string(), text("2"))]);
    assert_eq!(given.to_tf_string(), "{\n\ta = \"1\"\n\ta = \"2\"\n}");
}

#[test]
fn blocks_render_kind_type_identifier_and_values() {
    let mut r = TfResource::new_resource("aws_thing", "thing_1");
    r.add_field("name", text("n"));
    r.add_field("count", TfField::Raw("3".to_string()));
    assert_eq!(
        r.create_terraform().to_string(),
        "resource \"aws_thing\" \"thing_1\" {\n\tname = \"n\"\n\tcount = 3\n}\n"
    );
    let d = TfResource::new_data("aws_thing", "thing_2");
    assert_eq!(d.create_terraform().to_string(), "data \"aws_thing\" \"thing_2\" {\n\t\n}\n");
}

#[test]
fn a_name_given_twice_keeps_its_place_and_takes_the_new_value() {
    let mut r = TfResource::new_resource("t", "i");
    r.add_field("a", text("1"));
    r.add_field("b", text("2"));
    r.add_field("a", text("3"));
    assert_eq!(
        r.create_terraform().to_string(),
        "resource \"t\" \"i\" {\n\ta = \"3\"\n\tb = \"2\"\n}\n"
    );
}

#[test]
fn dependencies_gather_in_one_list() {
    let role = shared(Role::new("r", vec![]));
    let one = LambdaFunction {
        role: role.clone(),
        runtime: LambdaRuntime::NodeJs20,
        file_path: "one.js".to_string(),
        environment_variables: vec![],
    };
    let mut r = TfResource::new_resource("t", "i");
    r.add_field("a", text("1"));
    r.depends_on(&one);
    r.add_dependency("data.x.y".to_string());
    r.add_field("b", text("2"));
    let id = one.tf_identifier();
    assert_eq!(
        r.create_terraform().to_string(),
        format!(
            "resource \"t\" \"i\" {{\n\ta = \"1\"\n\tdepends_on = [aws_lambda_function.{id}, data.x.y]\n\tb = \"2\"\n}}\n"
        )
    );
}

#[test]
fn a_line_gives_back_its_name_and_value() {
    let pair = |a: &str, b: &str| (a.to_string(), b.to_string());
    assert_eq!(read_line("name = \"n\""), pair("name", "\"n\""));
    assert_eq!(read_line("list = [\"a\", b]"), pair("list", "[\"a\", b]"));
    assert_eq!(read_line("nested {"), pair("nested", "{"));
    assert_eq!(read_line("alone"), pair("alone", ""));
    assert_eq!(read_line("k ="), pair("k", "="));
    assert_eq!(read_line(""), pair("", ""));
    assert_eq!(read_line(" = v"), pair("", "v"));
}

#[test]
fn an_object_is_read_back_as_it_was_written() {
    let values = vec![
        ("alpha".to_string(), text("1")),
        ("beta".to_string(), TfField::Raw("sha1(x)".to_string())),
        ("gamma".to_string(), TfField::List(vec![text("a"), text("b")])),
        (
            "delta".to_string(),
            TfField::Variable(reference(TfDataType::Data, "t", "i", "f")),
        ),
    ];
    let expected: Vec<(String, String)> =
        values.iter().map(|(k, v)| (k.clone(), v.to_tf_string())).collect();
    let rendered = TfField::Object(values).to_tf_string();
    assert_eq!(read_object(&rendered), Some(expected.clone()));
    assert_eq!(read_back(&rendered[3..rendered.len() - 2]), expected);
    assert_eq!(read_back(""), vec![]);
    assert_eq!(read_object("{\n\t\n}"), Some(vec![]));
    assert_eq!(read_object("a = 1"), None);
    assert_eq!(read_object("{\n\ta = 1"), None);
    assert_eq!(read_object(""), None);
}

#[test]
fn the_pairs_read_back_do_not_depend_on_the_insertion_order() {
    let pairs = [("alpha", "1"), ("beta", "2"), ("gamma", "3")];
    let orders: [[usize; 3]; 3] = [[0, 1, 2], [2, 1, 0], [1, 2, 0]];
    let mut expected: Vec<(String, String)> =
        pairs.iter().map(|(k, v)| (k.to_string(), format!("\"{v}\""))).collect();
    expected.sort();
    for order in orders {
        let entries: Vec<(String, TfField)> =
            order.iter().map(|&i| (pairs[i].0.to_string(), text(pairs[i].1))).collect();
        let mut read = read_object(&TfField::object(entries).to_tf_string()).unwrap();
        read.sort();
        assert_eq!(read, expected);
    }
}
