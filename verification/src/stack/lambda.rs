//! Functions: the code that answers an endpoint.

use crate::stack::iam::role::Role;
use crate::stack::tf::{
    collected, entry_views, reference, render_block, FieldView, ResourceView, Terraform, TerraformEntity,
    TfDataType, TfField, TfResource, TfVar, VarView,
};
use crate::stack::Shared;
use crate::text::{decimal, decimal_string, hash_text, text_hash};
use vstd::prelude::*;
use vstd::string::*;

verus! {

/// What runs the function's code.
#[derive(Clone, Copy, Debug, PartialEq, Eq, Structural)]
pub enum LambdaRuntime {
    NodeJs20,
}

impl LambdaRuntime {
    pub open spec fn spec_name(&self) -> Seq<char> {
        match self {
            LambdaRuntime::NodeJs20 => "nodejs20.x"@,
        }
    }

    /// The provider's name for the runtime.
    pub fn name(&self) -> (s: &'static str)
        ensures
            s@ == self.spec_name(),
    {
        match self {
            LambdaRuntime::NodeJs20 => "nodejs20.x",
        }
    }
}

/// A function, known by the file that holds its code.
///
/// The environment variables are written out in the order in which they
/// stand. A name that stands twice is written once, in its first place and
/// with its last value.
#[derive(Clone, Debug)]
pub struct LambdaFunction {
    pub role: Shared<Role>,
    pub runtime: LambdaRuntime,
    pub file_path: String,
    pub environment_variables: Vec<(String, String)>,
}

/// The environment variables as quoted values.
pub open spec fn variable_views(variables: Seq<(String, String)>) -> Seq<(Seq<char>, FieldView)> {
    Seq::new(variables.len(), |i: int| (variables[i].0@, FieldView::String(variables[i].1@)))
}

impl LambdaFunction {
    /// The key from which the identifier is derived: the hash of the path
    /// of the code, as a decimal numeral.
    pub open spec fn spec_unique_key(&self) -> Seq<char> {
        decimal(text_hash(self.file_path@) as nat)
    }

    /// The name of the archive that holds the function's code.
    pub open spec fn spec_zip_path(&self) -> Seq<char> {
        "lambda_function_"@ + self.spec_unique_key() + ".zip"@
    }

    /// The block that declares the function.
    pub open spec fn spec_resource(&self) -> ResourceView {
        ResourceView {
            tf_type: "resource"@,
            resource_name: "aws_lambda_function"@,
            resource_identifier: self.spec_tf_identifier(),
            fields: seq![
                ("filename"@, FieldView::String(self.spec_zip_path())),
                ("function_name"@, FieldView::String(self.spec_tf_identifier())),
                (
                    "role"@,
                    FieldView::Variable(
                        VarView {
                            data_type: TfDataType::Resource,
                            kind_name: "aws_iam_role"@,
                            identifier: self.role.spec_tf_identifier(),
                            field: "arn"@,
                        },
                    ),
                ),
                ("handler"@, FieldView::String("index.handler"@)),
                ("runtime"@, FieldView::String(self.runtime.spec_name())),
                (
                    "source_code_hash"@,
                    FieldView::Raw("filebase64sha256(\""@ + self.spec_zip_path() + "\")"@),
                ),
                (
                    "environment"@,
                    FieldView::Object(collected(variable_views(self.environment_variables@))),
                ),
            ],
        }
    }

    pub fn unique_key(&self) -> (s: String)
        ensures
            s@ == self.spec_unique_key(),
    {
        decimal_string(hash_text(self.file_path.as_str()))
    }

    /// The name of the archive that holds the function's code.
    pub fn zip_path(&self) -> (s: String)
        ensures
            s@ == self.spec_zip_path(),
    {
        let mut s = "lambda_function_".to_owned();
        s.append(self.unique_key().as_str());
        s.append(".zip");
        s
    }

    /// Renders the block that declares the function.
    pub fn create_terraform(&self) -> (tf: Terraform)
        ensures
            tf@ == render_block(self.spec_resource()),
    {
        let mut variables: Vec<(String, TfField)> = Vec::new();
        let mut i: usize = 0;
        while i < self.environment_variables.len()
            invariant
                i <= self.environment_variables.len(),
                entry_views(variables@) == variable_views(self.environment_variables@).take(
                    i as int,
                ),
            decreases self.environment_variables.len() - i,
        {
            let ghost before = entry_views(variables@);
            let value = TfField::String(self.environment_variables[i].1.clone());
            let ghost value_view = value@;
            assert(value_view == FieldView::String(self.environment_variables@[i as int].1@));
            variables.push((self.environment_variables[i].0.clone(), value));
            assert(entry_views(variables@) =~= before.push(
                (self.environment_variables@[i as int].0@, value_view),
            ));
            assert(entry_views(variables@) =~= variable_views(self.environment_variables@).take(
                i + 1,
            ));
            i += 1;
        }
        assert(entry_views(variables@) =~= variable_views(self.environment_variables@));

        let identifier = self.tf_identifier();
        let mut source_code_hash = "filebase64sha256(\"".to_owned();
        source_code_hash.append(self.zip_path().as_str());
        source_code_hash.append("\")");

        let mut r = TfResource::new_resource("aws_lambda_function", identifier.as_str());
        r.add_field("filename", TfField::String(self.zip_path()));
        r.add_field("function_name", TfField::String(self.tf_identifier()));
        r.add_field("role", TfField::Variable(self.role.var("arn")));
        r.add_field("handler", TfField::String("index.handler".to_owned()));
        r.add_field("runtime", TfField::String(self.runtime.name().to_owned()));
        r.add_field("source_code_hash", TfField::Raw(source_code_hash));
        r.add_field("environment", TfField::object(variables));
        proof {
            reveal_strlit("filename");
            reveal_strlit("function_name");
            reveal_strlit("role");
            reveal_strlit("handler");
            reveal_strlit("runtime");
            reveal_strlit("source_code_hash");
            reveal_strlit("environment");
            assert("filename"@.len() == 8);
            assert("function_name"@.len() == 13);
            assert("role"@.len() == 4);
            assert("handler"@.len() == 7 && "handler"@[0] == 'h');
            assert("runtime"@.len() == 7 && "runtime"@[0] == 'r');
            assert("source_code_hash"@.len() == 16);
            assert("environment"@.len() == 11);
            assert(r@.fields =~= self.spec_resource().fields);
        }
        r.create_terraform()
    }
}

impl TerraformEntity for LambdaFunction {
    open spec fn spec_tf_identifier(&self) -> Seq<char> {
        "lambda_"@ + self.spec_unique_key()
    }

    open spec fn spec_tf_type() -> Seq<char> {
        "aws_lambda_function"@
    }

    open spec fn spec_data_type() -> TfDataType {
        TfDataType::Resource
    }

    fn var(&self, field: &str) -> (v: TfVar) {
        reference(TfDataType::Resource, "aws_lambda_function", self.tf_identifier().as_str(), field)
    }

    fn tf_identifier(&self) -> (s: String) {
        let mut s = "lambda_".to_owned();
        s.append(self.unique_key().as_str());
        s
    }

    fn tf_type() -> (s: &'static str) {
        "aws_lambda_function"
    }

    fn data_type() -> (d: TfDataType) {
        TfDataType::Resource
    }
}

} // verus!
