//! Roles: who may act on behalf of whom.

use crate::stack::tf::{
    reference, FieldView, ResourceView, Terraform, TfDataType, TfField, TfResource, TfVar,
    VarView, render_block,
};
use crate::text::{decimal, decimal_string, hash_text, join, join_texts, text_hash, texts};
use vstd::prelude::*;
use vstd::string::*;

verus! {

/// Whether a policy allows or denies.
#[derive(Clone, Copy, Debug, PartialEq, Eq, Structural)]
pub enum RoleEffect {
    Allow,
}

impl Default for RoleEffect {
    fn default() -> (r: Self)
        ensures
            r == RoleEffect::Allow,
    {
        RoleEffect::Allow
    }
}

/// What a policy is about.
#[derive(Clone, Copy, Debug, PartialEq, Eq, Structural)]
pub enum RoleAction {
    AssumeRole,
}

impl Default for RoleAction {
    fn default() -> (r: Self)
        ensures
            r == RoleAction::AssumeRole,
    {
        RoleAction::AssumeRole
    }
}

/// The service that a policy speaks of.
#[derive(Clone, Copy, Debug, PartialEq, Eq, Structural)]
pub enum RoleService {
    EC2,
    Lambda,
}

/// One statement of a role's trust policy.
#[derive(Clone, Copy, Debug)]
pub struct RolePolicy {
    pub action: RoleAction,
    pub effect: RoleEffect,
    pub service: RoleService,
}

impl RolePolicy {
    /// The policy that lets `service` assume the role.
    pub fn new(service: RoleService) -> (p: Self)
        ensures
            p == (RolePolicy { service, action: RoleAction::AssumeRole, effect: RoleEffect::Allow }),
    {
        Self { service, action: RoleAction::AssumeRole, effect: RoleEffect::Allow }
    }

    pub open spec fn spec_action(&self) -> Seq<char> {
        match self.action {
            RoleAction::AssumeRole => "sts:AssumeRole"@,
        }
    }

    pub open spec fn spec_effect(&self) -> Seq<char> {
        match self.effect {
            RoleEffect::Allow => "Allow"@,
        }
    }

    pub open spec fn spec_service(&self) -> Seq<char> {
        match self.service {
            RoleService::Lambda => "lambda.amazonaws.com"@,
            RoleService::EC2 => "ec2.amazonaws.com"@,
        }
    }

    /// The statement as it stands in the trust policy.
    pub open spec fn spec_statement(&self) -> Seq<char> {
        "{\n    \"Action\" = \""@ + self.spec_action() + "\"\n    \"Effect\" = \""@
            + self.spec_effect() + "\"\n    \"Principal\" = {\n        \"Service\" = \""@
            + self.spec_service() + "\"\n    }\n}"@
    }

    /// Writes the statement as it stands in the trust policy.
    pub fn statement(&self) -> (s: String)
        ensures
            s@ == self.spec_statement(),
    {
        let action = match self.action {
            RoleAction::AssumeRole => "sts:AssumeRole",
        };
        let effect = match self.effect {
            RoleEffect::Allow => "Allow",
        };
        let service = match self.service {
            RoleService::Lambda => "lambda.amazonaws.com",
            RoleService::EC2 => "ec2.amazonaws.com",
        };
        let mut s = "{\n    \"Action\" = \"".to_owned();
        s.append(action);
        s.append("\"\n    \"Effect\" = \"");
        s.append(effect);
        s.append("\"\n    \"Principal\" = {\n        \"Service\" = \"");
        s.append(service);
        s.append("\"\n    }\n}");
        s
    }
}

/// The statements of the policies, in order.
pub open spec fn statements(policies: Seq<RolePolicy>) -> Seq<Seq<char>> {
    Seq::new(policies.len(), |i: int| policies[i].spec_statement())
}

/// A role and the policies that say who may assume it.
#[derive(Clone, Debug)]
pub struct Role {
    pub name: String,
    pub policies: Vec<RolePolicy>,
}

impl Role {
    pub fn new(name: &str, policies: Vec<RolePolicy>) -> (r: Self)
        ensures
            r.name@ == name@,
            r.policies == policies,
    {
        Self { name: name.to_owned(), policies }
    }

    /// The key from which the identifier is derived: the hash of the name,
    /// as a decimal numeral.
    pub open spec fn spec_unique_key(&self) -> Seq<char> {
        decimal(text_hash(self.name@) as nat)
    }

    pub open spec fn spec_tf_identifier(&self) -> Seq<char> {
        "role_"@ + self.spec_unique_key()
    }

    /// The trust policy, as an expression of the configuration language.
    pub open spec fn spec_assume_role_policy(&self) -> Seq<char> {
        "jsonencode({\n        \"Version\": \"2012-10-17\",\n        \"Statement\": [\n            "@
            + join(statements(self.policies@), ",\n\t\t\t"@) + "\n        ]\n    })"@
    }

    /// The block that declares the role.
    pub open spec fn spec_resource(&self) -> ResourceView {
        ResourceView {
            tf_type: "resource"@,
            resource_name: "aws_iam_role"@,
            resource_identifier: self.spec_tf_identifier(),
            fields: seq![
                ("name"@, FieldView::String(self.name@)),
                ("assume_role_policy"@, FieldView::Raw(self.spec_assume_role_policy())),
            ],
        }
    }

    pub fn unique_key(&self) -> (s: String)
        ensures
            s@ == self.spec_unique_key(),
    {
        decimal_string(hash_text(self.name.as_str()))
    }

    pub fn tf_identifier(&self) -> (s: String)
        ensures
            s@ == self.spec_tf_identifier(),
    {
        let mut s = "role_".to_owned();
        s.append(self.unique_key().as_str());
        s
    }

    /// The reference to an attribute of the role's block.
    pub fn var(&self, field: &str) -> (v: TfVar)
        ensures
            v@ == (VarView {
                data_type: TfDataType::Resource,
                kind_name: "aws_iam_role"@,
                identifier: self.spec_tf_identifier(),
                field: field@,
            }),
    {
        reference(TfDataType::Resource, "aws_iam_role", self.tf_identifier().as_str(), field)
    }

    /// Renders the block that declares the role.
    pub fn create_terraform(&self) -> (tf: Terraform)
        ensures
            tf@ == render_block(self.spec_resource()),
    {
        let mut listed: Vec<String> = Vec::new();
        let mut i: usize = 0;
        while i < self.policies.len()
            invariant
                i <= self.policies.len(),
                texts(listed@) == statements(self.policies@).take(i as int),
            decreases self.policies.len() - i,
        {
            let ghost before = texts(listed@);
            let line = self.policies[i].statement();
            listed.push(line);
            assert(texts(listed@) =~= before.push(line@));
            assert(texts(listed@) =~= statements(self.policies@).take(i + 1));
            i += 1;
        }
        assert(texts(listed@) =~= statements(self.policies@));
        let mut policy =
            "jsonencode({\n        \"Version\": \"2012-10-17\",\n        \"Statement\": [\n            ".to_owned();
        policy.append(join_texts(&listed, ",\n\t\t\t").as_str());
        policy.append("\n        ]\n    })");

        let mut tf_res = TfResource::new_resource("aws_iam_role", self.tf_identifier().as_str());
        tf_res.add_field("name", TfField::String(self.name.clone()));
        tf_res.add_field("assume_role_policy", TfField::Raw(policy));
        proof {
            reveal_strlit("name");
            reveal_strlit("assume_role_policy");
            assert("name"@.len() == 4);
            assert("assume_role_policy"@.len() == 18);
            assert(tf_res@.fields =~= self.spec_resource().fields);
        }
        tf_res.create_terraform()
    }
}

} // verus!
