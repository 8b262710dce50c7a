//! The stage under which a deployment is published.

use crate::stack::api::deployment::GatewayDeployment;
use crate::stack::api::gateway::ApiGateway;
use crate::stack::tf::{
    reference, render_block, FieldView, ResourceView, Terraform, TerraformEntity, TfDataType,
    TfField, TfResource, TfVar, VarView,
};
use crate::text::{decimal, decimal_string, hash_text, text_hash};
use vstd::prelude::*;
use vstd::string::*;

verus! {

/// A stage of a gateway.
#[derive(Clone, Debug)]
pub struct Stage {
    pub stage_name: String,
}

impl TerraformEntity for Stage {
    /// The identifier is derived from the stage's name alone.
    open spec fn spec_tf_identifier(&self) -> Seq<char> {
        "stage_"@ + decimal(text_hash(self.stage_name@) as nat)
    }

    open spec fn spec_tf_type() -> Seq<char> {
        "aws_api_gateway_stage"@
    }

    open spec fn spec_data_type() -> TfDataType {
        TfDataType::Resource
    }

    fn var(&self, field: &str) -> (v: TfVar) {
        reference(
            TfDataType::Resource,
            "aws_api_gateway_stage",
            self.tf_identifier().as_str(),
            field,
        )
    }

    fn tf_identifier(&self) -> (s: String) {
        let mut s = "stage_".to_owned();
        s.append(decimal_string(hash_text(self.stage_name.as_str())).as_str());
        s
    }

    fn tf_type() -> (s: &'static str) {
        "aws_api_gateway_stage"
    }

    fn data_type() -> (d: TfDataType) {
        TfDataType::Resource
    }
}

impl Stage {
    /// The block that declares the stage of `gateway`: it publishes
    /// `deployment`.
    pub open spec fn spec_resource(
        &self,
        gateway: &ApiGateway,
        deployment: &GatewayDeployment,
    ) -> ResourceView {
        ResourceView {
            tf_type: "resource"@,
            resource_name: "aws_api_gateway_stage"@,
            resource_identifier: self.spec_tf_identifier(),
            fields: seq![
                ("stage_name"@, FieldView::String(self.stage_name@)),
                (
                    "deployment_id"@,
                    FieldView::Variable(
                        VarView {
                            data_type: TfDataType::Resource,
                            kind_name: "aws_api_gateway_deployment"@,
                            identifier: deployment.spec_tf_identifier(),
                            field: "id"@,
                        },
                    ),
                ),
                ("rest_api_id"@, FieldView::Variable(gateway.spec_var_rest_api("id"@))),
            ],
        }
    }

    /// Renders the block that declares the stage.
    pub fn create_terraform(&self, gateway: &ApiGateway, deployment: &GatewayDeployment) -> (tf:
        Terraform)
        ensures
            tf@ == render_block(self.spec_resource(gateway, deployment)),
    {
        let mut r = TfResource::new_resource("aws_api_gateway_stage", self.tf_identifier().as_str());
        r.add_field("stage_name", TfField::String(self.stage_name.clone()));
        r.add_field("deployment_id", TfField::Variable(deployment.var("id")));
        r.add_field("rest_api_id", TfField::Variable(gateway.var_gateway_rest_api("id")));
        proof {
            reveal_strlit("stage_name");
            reveal_strlit("deployment_id");
            reveal_strlit("rest_api_id");
            assert("stage_name"@.len() == 10);
            assert("deployment_id"@.len() == 13);
            assert("rest_api_id"@.len() == 11);
            assert(r@.fields =~= self.spec_resource(gateway, deployment).fields);
        }
        r.create_terraform()
    }
}

} // verus!
