//! Endpoints: a route and a method, answered by a function.

pub use crate::cloud::api::HttpMethod;
use crate::stack::api::gateway::{path_var, ApiGateway, ResourcePath};
use crate::stack::lambda::LambdaFunction;
use crate::stack::tf::{
    combined, lemma_note_dependency, reference, render_address, render_block, render_var,
    FieldView, ResourceView, Terraform, TerraformEntity, TfDataType, TfField, TfResource, TfVar,
    VarView,
};
use vstd::prelude::*;
use vstd::string::*;

verus! {

/// An endpoint of a gateway. Its name tells it from the other endpoints of
/// the gateway; its route is a path of segments with `/` between them.
#[derive(Clone, Debug)]
pub struct ApiEndpoint {
    pub name: String,
    pub lambda: LambdaFunction,
    pub http_method: HttpMethod,
    pub route: String,
}

impl TerraformEntity for ApiEndpoint {
    /// The identifier of the method block is derived from that of the
    /// function.
    open spec fn spec_tf_identifier(&self) -> Seq<char> {
        "endpoint_"@ + self.lambda.spec_tf_identifier()
    }

    open spec fn spec_tf_type() -> Seq<char> {
        "aws_api_gateway_method"@
    }

    open spec fn spec_data_type() -> TfDataType {
        TfDataType::Resource
    }

    fn var(&self, field: &str) -> (v: TfVar) {
        reference(
            TfDataType::Resource,
            "aws_api_gateway_method",
            self.tf_identifier().as_str(),
            field,
        )
    }

    fn tf_identifier(&self) -> (s: String) {
        let mut s = "endpoint_".to_owned();
        s.append(self.lambda.tf_identifier().as_str());
        s
    }

    fn tf_type() -> (s: &'static str) {
        "aws_api_gateway_method"
    }

    fn data_type() -> (d: TfDataType) {
        TfDataType::Resource
    }
}

/// What ties the method of an endpoint to its function.
#[derive(Clone, Copy, Debug)]
pub struct ApiGatewayIntegration<'a> {
    pub http_method: HttpMethod,
    pub api_endpoint: &'a ApiEndpoint,
}

impl<'a> TerraformEntity for ApiGatewayIntegration<'a> {
    /// The identifier is derived from that of the method block.
    open spec fn spec_tf_identifier(&self) -> Seq<char> {
        "integration_"@ + self.api_endpoint.spec_tf_identifier()
    }

    open spec fn spec_tf_type() -> Seq<char> {
        "aws_api_gateway_integration"@
    }

    open spec fn spec_data_type() -> TfDataType {
        TfDataType::Resource
    }

    fn var(&self, field: &str) -> (v: TfVar) {
        reference(
            TfDataType::Resource,
            "aws_api_gateway_integration",
            self.tf_identifier().as_str(),
            field,
        )
    }

    fn tf_identifier(&self) -> (s: String) {
        let mut s = "integration_".to_owned();
        s.append(self.api_endpoint.tf_identifier().as_str());
        s
    }

    fn tf_type() -> (s: &'static str) {
        "aws_api_gateway_integration"
    }

    fn data_type() -> (d: TfDataType) {
        TfDataType::Resource
    }
}

/// What is known of the literal names of the blocks below.
proof fn lemma_names()
    ensures
        "rest_api_id"@.len() == 11,
        "rest_api_id"@[0] == 'r',
        "rest_api_id"@[3] == 't',
        "resource_id"@.len() == 11,
        "resource_id"@[3] == 'o',
        "resource_id"@[0] == 'r',
        "http_method"@.len() == 11,
        "http_method"@[0] == 'h',
        "authorization"@.len() == 13,
        "depends_on"@.len() == 10,
        "depends_on"@[0] == 'd',
        "integration_http_method"@.len() == 23,
        "type"@.len() == 4,
        "uri"@.len() == 3,
        "statement_id"@.len() == 12,
        "action"@.len() == 6,
        "function_name"@.len() == 13,
        "principal"@.len() == 9,
        "source_arn"@.len() == 10,
        "source_arn"@[0] == 's',
{
    reveal_strlit("rest_api_id");
    reveal_strlit("resource_id");
    reveal_strlit("http_method");
    reveal_strlit("authorization");
    reveal_strlit("depends_on");
    reveal_strlit("integration_http_method");
    reveal_strlit("type");
    reveal_strlit("uri");
    reveal_strlit("statement_id");
    reveal_strlit("action");
    reveal_strlit("function_name");
    reveal_strlit("principal");
    reveal_strlit("source_arn");
}

impl<'a> ApiGatewayIntegration<'a> {
    /// The block that declares the integration on `gateway`, under the
    /// resource path `path`. It can be made only after the function.
    pub open spec fn spec_resource(&self, gateway: &ApiGateway, path: Seq<char>) -> ResourceView {
        ResourceView {
            tf_type: "resource"@,
            resource_name: "aws_api_gateway_integration"@,
            resource_identifier: self.spec_tf_identifier(),
            fields: seq![
                ("rest_api_id"@, FieldView::Variable(gateway.spec_var_rest_api("id"@))),
                ("resource_id"@, FieldView::Variable(path_var(path, "id"@))),
                ("http_method"@, FieldView::String(self.http_method.spec_name())),
                (
                    "depends_on"@,
                    FieldView::List(
                        seq![
                            FieldView::Raw(
                                render_address(
                                    TfDataType::Resource,
                                    "aws_lambda_function"@,
                                    self.api_endpoint.lambda.spec_tf_identifier(),
                                ),
                            ),
                        ],
                    ),
                ),
                ("integration_http_method"@, FieldView::String("POST"@)),
                ("type"@, FieldView::String("AWS_PROXY"@)),
                (
                    "uri"@,
                    FieldView::Variable(
                        VarView {
                            data_type: TfDataType::Resource,
                            kind_name: "aws_lambda_function"@,
                            identifier: self.api_endpoint.lambda.spec_tf_identifier(),
                            field: "invoke_arn"@,
                        },
                    ),
                ),
            ],
        }
    }

    /// Renders the block that declares the integration.
    pub fn create_terraform(&self, gateway: &ApiGateway, resource_path: &ResourcePath) -> (tf:
        Terraform)
        ensures
            tf@ == render_block(self.spec_resource(gateway, resource_path.resource_path@)),
    {
        let mut r = TfResource::new_resource(
            "aws_api_gateway_integration",
            self.tf_identifier().as_str(),
        );
        r.add_field("rest_api_id", TfField::Variable(gateway.var_gateway_rest_api("id")));
        r.add_field("resource_id", TfField::Variable(resource_path.var("id")));
        r.add_field("http_method", TfField::String(self.http_method.name().to_owned()));
        let ghost base = r@.fields;
        proof {
            lemma_names();
            assert(base =~= self.spec_resource(gateway, resource_path.resource_path@).fields.take(
                3,
            ));
            lemma_note_dependency(
                base,
                Seq::empty(),
                render_address(
                    TfDataType::Resource,
                    "aws_lambda_function"@,
                    self.api_endpoint.lambda.spec_tf_identifier(),
                ),
            );
        }
        r.depends_on(&self.api_endpoint.lambda);
        // The function takes POST requests only, whatever the endpoint's method.
        r.add_field("integration_http_method", TfField::String("POST".to_owned()));
        r.add_field("type", TfField::String("AWS_PROXY".to_owned()));
        r.add_field("uri", TfField::Variable(self.api_endpoint.lambda.var("invoke_arn")));
        proof {
            assert(r@.fields =~= self.spec_resource(gateway, resource_path.resource_path@).fields);
        }
        r.create_terraform()
    }
}

impl ApiEndpoint {
    /// The key from which the identifiers are derived: that of the
    /// function.
    pub fn unique_key(&self) -> (s: String)
        ensures
            s@ == self.lambda.spec_unique_key(),
    {
        self.lambda.unique_key()
    }

    /// The integration of this endpoint.
    pub fn api_integration(&self) -> (i: ApiGatewayIntegration<'_>)
        ensures
            i.http_method == self.http_method,
            *i.api_endpoint == *self,
    {
        ApiGatewayIntegration { http_method: self.http_method, api_endpoint: self }
    }

    /// The integration of this endpoint.
    pub open spec fn spec_integration(&self) -> ApiGatewayIntegration<'_> {
        ApiGatewayIntegration { http_method: self.http_method, api_endpoint: self }
    }

    /// The address of the method block.
    pub open spec fn spec_method_address(&self) -> Seq<char> {
        render_address(TfDataType::Resource, "aws_api_gateway_method"@, self.spec_tf_identifier())
    }

    /// The address of the integration block.
    pub open spec fn spec_integration_address(&self) -> Seq<char> {
        render_address(
            TfDataType::Resource,
            "aws_api_gateway_integration"@,
            "integration_"@ + self.spec_tf_identifier(),
        )
    }

    /// The block that declares the method on `gateway`, under the resource
    /// path `path`.
    pub open spec fn spec_method_resource(&self, gateway: &ApiGateway, path: Seq<char>) -> ResourceView {
        ResourceView {
            tf_type: "resource"@,
            resource_name: "aws_api_gateway_method"@,
            resource_identifier: self.spec_tf_identifier(),
            fields: seq![
                ("rest_api_id"@, FieldView::Variable(gateway.spec_var_rest_api("id"@))),
                ("resource_id"@, FieldView::Variable(path_var(path, "id"@))),
                ("http_method"@, FieldView::String(self.http_method.spec_name())),
                ("authorization"@, FieldView::String("NONE"@)),
            ],
        }
    }

    /// The block that lets `gateway` invoke the function.
    pub open spec fn spec_permission_resource(&self, gateway: &ApiGateway) -> ResourceView {
        ResourceView {
            tf_type: "resource"@,
            resource_name: "aws_lambda_permission"@,
            resource_identifier: self.spec_tf_identifier(),
            fields: seq![
                ("statement_id"@, FieldView::String("AllowAPIGatewayInvoke"@)),
                ("action"@, FieldView::String("lambda:InvokeFunction"@)),
                (
                    "function_name"@,
                    FieldView::Variable(
                        VarView {
                            data_type: TfDataType::Resource,
                            kind_name: "aws_lambda_function"@,
                            identifier: self.lambda.spec_tf_identifier(),
                            field: "function_name"@,
                        },
                    ),
                ),
                ("principal"@, FieldView::String("apigateway.amazonaws.com"@)),
                (
                    "source_arn"@,
                    FieldView::String(
                        "${"@ + render_var(gateway.spec_var_rest_api("execution_arn"@))
                            + "}/*/*/*"@,
                    ),
                ),
            ],
        }
    }

    /// The four blocks of the endpoint: function, method, integration and
    /// permission.
    pub open spec fn spec_terraform(&self, gateway: &ApiGateway, path: Seq<char>) -> Seq<char> {
        combined(
            combined(
                combined(
                    render_block(self.lambda.spec_resource()),
                    render_block(self.spec_method_resource(gateway, path)),
                ),
                render_block(self.spec_integration().spec_resource(gateway, path)),
            ),
            render_block(self.spec_permission_resource(gateway)),
        )
    }

    /// Renders the blocks of the endpoint on `gateway`, under the resource
    /// path handed in.
    pub fn create_terraform(&self, gateway: &ApiGateway, resource_path: &ResourcePath) -> (tf:
        Terraform)
        ensures
            tf@ == self.spec_terraform(gateway, resource_path.resource_path@),
    {
        let lambda_tf = self.lambda.create_terraform();

        let identifier = self.tf_identifier();
        let mut method = TfResource::new_resource("aws_api_gateway_method", identifier.as_str());
        method.add_field("rest_api_id", TfField::Variable(gateway.var_gateway_rest_api("id")));
        method.add_field("resource_id", TfField::Variable(resource_path.var("id")));
        method.add_field("http_method", TfField::String(self.http_method.name().to_owned()));
        method.add_field("authorization", TfField::String("NONE".to_owned()));
        proof {
            lemma_names();
            assert(method@.fields =~= self.spec_method_resource(
                gateway,
                resource_path.resource_path@,
            ).fields);
        }

        let integration = self.api_integration();
        assert(integration == self.spec_integration());

        let mut source_arn = "${".to_owned();
        source_arn.append(gateway.var_gateway_rest_api("execution_arn").to_tf_string().as_str());
        source_arn.append("}/*/*/*");

        let mut permission = TfResource::new_resource("aws_lambda_permission", identifier.as_str());
        permission.add_field("statement_id", TfField::String("AllowAPIGatewayInvoke".to_owned()));
        permission.add_field("action", TfField::String("lambda:InvokeFunction".to_owned()));
        permission.add_field("function_name", TfField::Variable(self.lambda.var("function_name")));
        permission.add_field("principal", TfField::String("apigateway.amazonaws.com".to_owned()));
        permission.add_field("source_arn", TfField::String(source_arn));
        proof {
            assert(permission@.fields =~= self.spec_permission_resource(gateway).fields);
        }

        lambda_tf.combine(&method.create_terraform()).combine(
            &integration.create_terraform(gateway, resource_path),
        ).combine(&permission.create_terraform())
    }
}

} // verus!
