//! The deployment of a gateway: the snapshot of its methods and
//! integrations that a stage publishes.

use crate::stack::api::endpoint::ApiEndpoint;
use crate::stack::api::gateway::ApiGateway;
use crate::stack::tf::{
    address, entry_views, lemma_note_dependency, lemma_with_field_fresh, reference,
    render_block, FieldView, ResourceView, Terraform, TerraformEntity, TfDataType, TfField,
    TfResource, TfVar,
};
use crate::text::{indices, join, join_texts, sort_order, texts};
use vstd::prelude::*;
use vstd::string::*;

verus! {

/// The deployment of a gateway.
#[derive(Clone, Copy, Debug)]
pub struct GatewayDeployment<'a> {
    pub gateway: &'a ApiGateway,
}

impl<'a> TerraformEntity for GatewayDeployment<'a> {
    /// A gateway has one deployment, under the gateway's own identifier.
    open spec fn spec_tf_identifier(&self) -> Seq<char> {
        self.gateway.spec_tf_identifier()
    }

    open spec fn spec_tf_type() -> Seq<char> {
        "aws_api_gateway_deployment"@
    }

    open spec fn spec_data_type() -> TfDataType {
        TfDataType::Resource
    }

    fn var(&self, field: &str) -> (v: TfVar) {
        reference(
            TfDataType::Resource,
            "aws_api_gateway_deployment",
            self.tf_identifier().as_str(),
            field,
        )
    }

    fn tf_identifier(&self) -> (s: String) {
        self.gateway.tf_identifier()
    }

    fn tf_type() -> (s: &'static str) {
        "aws_api_gateway_deployment"
    }

    fn data_type() -> (d: TfDataType) {
        TfDataType::Resource
    }
}

/// What a deployment depends on: the method and the integration of each
/// endpoint, in the order of the endpoints.
pub open spec fn dependency_list(endpoints: Seq<ApiEndpoint>) -> Seq<FieldView>
    decreases endpoints.len(),
{
    if endpoints.len() == 0 {
        Seq::<FieldView>::empty()
    } else {
        dependency_list(endpoints.drop_last()).push(
            FieldView::Raw(endpoints.last().spec_method_address()),
        ).push(FieldView::Raw(endpoints.last().spec_integration_address()))
    }
}

/// What each endpoint adds to the redeployment trigger: the addresses of its
/// method and of its integration.
pub open spec fn trigger_lines(endpoints: Seq<ApiEndpoint>) -> Seq<Seq<char>> {
    Seq::new(
        endpoints.len(),
        |i: int|
            endpoints[i].spec_method_address() + ",\n"@ + endpoints[i].spec_integration_address(),
    )
}

/// The expression whose value changes whenever the methods or integrations
/// of the gateway change: a hash over all of them.
pub open spec fn redeployment_trigger(endpoints: Seq<ApiEndpoint>) -> Seq<char> {
    "sha1(jsonencode([\n"@ + join(trigger_lines(endpoints), ",\n"@) + "\n]))"@
}

proof fn lemma_names()
    ensures
        "rest_api_id"@.len() == 11,
        "lifecycle"@.len() == 9,
        "depends_on"@.len() == 10,
        "triggers"@.len() == 8,
{
    reveal_strlit("rest_api_id");
    reveal_strlit("lifecycle");
    reveal_strlit("depends_on");
    reveal_strlit("triggers");
}

impl<'a> GatewayDeployment<'a> {
    /// What every deployment block holds, whatever the endpoints.
    pub open spec fn spec_base_fields(&self) -> Seq<(Seq<char>, FieldView)> {
        seq![
            ("rest_api_id"@, FieldView::Variable(self.gateway.spec_var_rest_api("id"@))),
            (
                "lifecycle"@,
                FieldView::Object(seq![("create_before_destroy"@, FieldView::Raw("true"@))]),
            ),
        ]
    }

    /// The block that declares the deployment. It depends on the method and
    /// the integration of every endpoint of the gateway, and on nothing
    /// else; the endpoints are taken in the order of their names.
    pub open spec fn spec_resource(&self) -> ResourceView {
        let endpoints = self.gateway.spec_ordered();
        let triggers = (
            "triggers"@,
            FieldView::Object(
                seq![("redeployment"@, FieldView::Raw(redeployment_trigger(endpoints)))],
            ),
        );
        ResourceView {
            tf_type: "resource"@,
            resource_name: "aws_api_gateway_deployment"@,
            resource_identifier: self.spec_tf_identifier(),
            fields: if endpoints.len() == 0 {
                self.spec_base_fields().push(triggers)
            } else {
                self.spec_base_fields().push(
                    ("depends_on"@, FieldView::List(dependency_list(endpoints))),
                ).push(triggers)
            },
        }
    }

    /// Renders the block that declares the deployment.
    pub fn create_terraform(&self) -> (tf: Terraform)
        ensures
            tf@ == render_block(self.spec_resource()),
    {
        let gateway = self.gateway;
        let mut resource = TfResource::new_resource(
            "aws_api_gateway_deployment",
            self.tf_identifier().as_str(),
        );
        resource.add_field("rest_api_id", TfField::Variable(gateway.var_gateway_rest_api("id")));

        let flag = TfField::Raw("true".to_owned());
        let ghost flag_view = flag@;
        let mut lifecycle: Vec<(String, TfField)> = Vec::new();
        lifecycle.push(("create_before_destroy".to_owned(), flag));
        assert(entry_views(lifecycle@) =~= seq![("create_before_destroy"@, flag_view)]);
        resource.add_field("lifecycle", TfField::Object(lifecycle));

        let ghost base = self.spec_base_fields();
        let ghost endpoints = gateway.spec_ordered();
        proof {
            lemma_names();
            assert(resource@.fields =~= base);
        }

        let names = gateway.names();
        let order = sort_order(&names);
        proof {
            assert forall|i: int| 0 <= i < order.len() implies 0 <= #[trigger] order[i]
                < gateway.endpoints.len() && endpoints[i] == gateway.endpoints[order[i] as int] by {
                assert(indices(order@)[i] == order[i] as int);
            }
        }
        let mut lines: Vec<String> = Vec::new();
        let mut k: usize = 0;
        while k < order.len()
            invariant
                k <= order.len(),
                gateway == self.gateway,
                order.len() == gateway.endpoints.len(),
                base == self.spec_base_fields(),
                endpoints == gateway.spec_ordered(),
                endpoints.len() == order.len(),
                forall|i: int|
                    0 <= i < order.len() ==> 0 <= #[trigger] order[i] < gateway.endpoints.len()
                        && endpoints[i] == gateway.endpoints[order[i] as int],
                forall|i: int| 0 <= i < base.len() ==> (#[trigger] base[i]).0 != "depends_on"@,
                resource@ == (ResourceView {
                    tf_type: "resource"@,
                    resource_name: "aws_api_gateway_deployment"@,
                    resource_identifier: self.spec_tf_identifier(),
                    fields: if k == 0 {
                        base
                    } else {
                        base.push(
                            (
                                "depends_on"@,
                                FieldView::List(dependency_list(endpoints.take(k as int))),
                            ),
                        )
                    },
                }),
                texts(lines@) == trigger_lines(endpoints).take(k as int),
            decreases order.len() - k,
        {
            let endpoint = &gateway.endpoints[order[k]];
            let integration = endpoint.api_integration();
            let ghost listed = dependency_list(endpoints.take(k as int));
            proof {
                assert(endpoints.take(k + 1).drop_last() =~= endpoints.take(k as int));
                assert(endpoints.take(k + 1).last() == *endpoint);
                lemma_note_dependency(base, listed, endpoint.spec_method_address());
                lemma_note_dependency(
                    base,
                    listed.push(FieldView::Raw(endpoint.spec_method_address())),
                    endpoint.spec_integration_address(),
                );
                lemma_note_dependency(
                    base,
                    seq![FieldView::Raw(endpoint.spec_method_address())],
                    endpoint.spec_integration_address(),
                );
                if k == 0 {
                    assert(listed =~= Seq::<FieldView>::empty());
                    assert(listed.push(FieldView::Raw(endpoint.spec_method_address())) =~= seq![
                        FieldView::Raw(endpoint.spec_method_address()),
                    ]);
                }
            }
            resource.depends_on(endpoint);
            resource.depends_on(&integration);

            let mut line = address(
                TfDataType::Resource,
                "aws_api_gateway_method",
                endpoint.tf_identifier().as_str(),
            );
            line.append(",\n");
            line.append(
                address(
                    TfDataType::Resource,
                    "aws_api_gateway_integration",
                    integration.tf_identifier().as_str(),
                ).as_str(),
            );
            let ghost before = texts(lines@);
            lines.push(line);
            proof {
                assert(texts(lines@) =~= before.push(line@));
                assert(texts(lines@) =~= trigger_lines(endpoints).take(k + 1));
            }
            k += 1;
        }
        proof {
            assert(endpoints.take(order.len() as int) =~= endpoints);
            assert(trigger_lines(endpoints).take(order.len() as int) =~= trigger_lines(endpoints));
        }

        let mut trigger = "sha1(jsonencode([\n".to_owned();
        trigger.append(join_texts(&lines, ",\n").as_str());
        trigger.append("\n]))");
        let trigger = TfField::Raw(trigger);
        let ghost trigger_view = trigger@;
        let mut triggers: Vec<(String, TfField)> = Vec::new();
        triggers.push(("redeployment".to_owned(), trigger));
        assert(entry_views(triggers@) =~= seq![("redeployment"@, trigger_view)]);
        let ghost listed_fields = resource@.fields;
        proof {
            lemma_with_field_fresh(
                listed_fields,
                "triggers"@,
                FieldView::Object(seq![("redeployment"@, trigger_view)]),
            );
        }
        resource.add_field("triggers", TfField::Object(triggers));
        proof {
            assert(resource@.fields =~= self.spec_resource().fields);
        }
        resource.create_terraform()
    }
}

} // verus!
