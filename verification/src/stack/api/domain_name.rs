//! A custom domain for a gateway, and the certificate that covers it.

use crate::stack::tf::{
    entry_views, field_views, reference, render_block, FieldView, ResourceView, Terraform, TfDataType, TfField, TfResource,
    TfVar, VarView,
};
use crate::stack::Shared;
use crate::text::{decimal, decimal_string, hash_text, text_hash};
use vstd::prelude::*;
use vstd::string::*;

verus! {

/// How the domain's endpoint is placed.
#[derive(Clone, Copy, Debug, PartialEq, Eq, Structural)]
pub enum EndpointConfiguration {
    Regional,
}

impl Default for EndpointConfiguration {
    fn default() -> (r: Self)
        ensures
            r == EndpointConfiguration::Regional,
    {
        EndpointConfiguration::Regional
    }
}

impl EndpointConfiguration {
    pub open spec fn spec_name(&self) -> Seq<char> {
        match self {
            EndpointConfiguration::Regional => "REGIONAL"@,
        }
    }

    /// The provider's name for the placement.
    pub fn name(&self) -> (s: &'static str)
        ensures
            s@ == self.spec_name(),
    {
        match self {
            EndpointConfiguration::Regional => "REGIONAL",
        }
    }
}

/// An issued certificate, found by the domain it covers.
#[derive(Clone, Debug)]
pub struct Certificate {
    pub domain: String,
}

impl Certificate {
    /// The key from which the identifier is derived: the hash of the
    /// domain, as a decimal numeral.
    pub open spec fn spec_unique_key(&self) -> Seq<char> {
        decimal(text_hash(self.domain@) as nat)
    }

    pub open spec fn spec_tf_identifier(&self) -> Seq<char> {
        "certificate_"@ + self.spec_unique_key()
    }

    /// The block that looks the certificate up.
    pub open spec fn spec_resource(&self) -> ResourceView {
        ResourceView {
            tf_type: "data"@,
            resource_name: "aws_acm_certificate"@,
            resource_identifier: self.spec_tf_identifier(),
            fields: seq![
                ("domain"@, FieldView::String(self.domain@)),
                ("statuses"@, FieldView::List(seq![FieldView::String("ISSUED"@)])),
            ],
        }
    }

    pub fn unique_key(&self) -> (s: String)
        ensures
            s@ == self.spec_unique_key(),
    {
        decimal_string(hash_text(self.domain.as_str()))
    }

    pub fn tf_identifier(&self) -> (s: String)
        ensures
            s@ == self.spec_tf_identifier(),
    {
        let mut s = "certificate_".to_owned();
        s.append(self.unique_key().as_str());
        s
    }

    /// Renders the block that looks the certificate up.
    pub fn create_terraform(&self) -> (tf: Terraform)
        ensures
            tf@ == render_block(self.spec_resource()),
    {
        let identifier = self.tf_identifier();
        let mut r = TfResource::new_data("aws_acm_certificate", identifier.as_str());
        r.add_field("domain", TfField::String(self.domain.clone()));
        let issued = TfField::String("ISSUED".to_owned());
        assert(issued@ == FieldView::String("ISSUED"@));
        let mut statuses: Vec<TfField> = Vec::new();
        statuses.push(issued);
        assert(field_views(statuses@) =~= seq![FieldView::String("ISSUED"@)]);
        let statuses = TfField::List(statuses);
        r.add_field("statuses", statuses);
        proof {
            reveal_strlit("domain");
            reveal_strlit("statuses");
            assert("domain"@.len() == 6);
            assert("statuses"@.len() == 8);
            assert(r@.fields =~= self.spec_resource().fields);
        }
        r.create_terraform()
    }

    /// The reference to an attribute of the certificate's block.
    pub fn var(&self, field: &str) -> (v: TfVar)
        ensures
            v@ == (VarView {
                data_type: TfDataType::Data,
                kind_name: "aws_acm_certificate"@,
                identifier: self.spec_tf_identifier(),
                field: field@,
            }),
    {
        reference(TfDataType::Data, "aws_acm_certificate", self.tf_identifier().as_str(), field)
    }
}

/// A custom domain name, served under a certificate.
#[derive(Clone, Debug)]
pub struct Domain {
    pub endpoint_configuration: EndpointConfiguration,
    pub certificate: Shared<Certificate>,
}

impl Domain {
    /// The key from which the identifier is derived: that of the
    /// certificate.
    pub open spec fn spec_unique_key(&self) -> Seq<char> {
        self.certificate.spec_unique_key()
    }

    pub open spec fn spec_tf_identifier(&self) -> Seq<char> {
        "domain_"@ + self.spec_unique_key()
    }

    /// The block that declares the domain name.
    pub open spec fn spec_resource(&self) -> ResourceView {
        ResourceView {
            tf_type: "resource"@,
            resource_name: "aws_api_gateway_domain_name"@,
            resource_identifier: self.spec_tf_identifier(),
            fields: seq![
                ("domain_name"@, FieldView::String(self.certificate.domain@)),
                (
                    "regional_certificate_arn"@,
                    FieldView::Variable(
                        VarView {
                            data_type: TfDataType::Data,
                            kind_name: "aws_acm_certificate"@,
                            identifier: self.certificate.spec_tf_identifier(),
                            field: "arn"@,
                        },
                    ),
                ),
                (
                    "endpoint_configuration"@,
                    FieldView::Object(
                        seq![
                            (
                                "types"@,
                                FieldView::List(
                                    seq![FieldView::String(self.endpoint_configuration.spec_name())],
                                ),
                            ),
                        ],
                    ),
                ),
            ],
        }
    }

    pub fn unique_key(&self) -> (s: String)
        ensures
            s@ == self.spec_unique_key(),
    {
        self.certificate.unique_key()
    }

    pub fn tf_identifier(&self) -> (s: String)
        ensures
            s@ == self.spec_tf_identifier(),
    {
        let mut s = "domain_".to_owned();
        s.append(self.unique_key().as_str());
        s
    }

    /// The reference to an attribute of the domain's block.
    pub fn var(&self, field: &str) -> (v: TfVar)
        ensures
            v@ == (VarView {
                data_type: TfDataType::Resource,
                kind_name: "aws_api_gateway_domain_name"@,
                identifier: self.spec_tf_identifier(),
                field: field@,
            }),
    {
        reference(
            TfDataType::Resource,
            "aws_api_gateway_domain_name",
            self.tf_identifier().as_str(),
            field,
        )
    }

    /// Renders the block that declares the domain name.
    pub fn create_terraform(&self) -> (tf: Terraform)
        ensures
            tf@ == render_block(self.spec_resource()),
    {
        let identifier = self.tf_identifier();
        let mut r = TfResource::new_resource("aws_api_gateway_domain_name", identifier.as_str());
        r.add_field("domain_name", TfField::String(self.certificate.domain.clone()));
        r.add_field("regional_certificate_arn", TfField::Variable(self.certificate.var("arn")));

        let placement = TfField::String(self.endpoint_configuration.name().to_owned());
        assert(placement@ == FieldView::String(self.endpoint_configuration.spec_name()));
        let mut types: Vec<TfField> = Vec::new();
        types.push(placement);
        assert(field_views(types@) =~= seq![
            FieldView::String(self.endpoint_configuration.spec_name()),
        ]);
        let types = TfField::List(types);
        let ghost types_view = types@;
        let mut configuration: Vec<(String, TfField)> = Vec::new();
        configuration.push(("types".to_owned(), types));
        assert(entry_views(configuration@) =~= seq![("types"@, types_view)]);
        let configuration = TfField::Object(configuration);
        r.add_field("endpoint_configuration", configuration);
        proof {
            reveal_strlit("domain_name");
            reveal_strlit("regional_certificate_arn");
            reveal_strlit("endpoint_configuration");
            assert("domain_name"@.len() == 11);
            assert("regional_certificate_arn"@.len() == 24);
            assert("endpoint_configuration"@.len() == 22);
            assert(r@.fields =~= self.spec_resource().fields);
        }
        r.create_terraform()
    }
}

} // verus!
