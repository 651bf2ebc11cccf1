//! The closed set of parameter variants, their spec views, and the
//! out-of-band variant tag that accompanies a binary envelope.

use vstd::prelude::*;
use crate::address::{Address, AddrView, valid_addr_bytes};

verus! {

/// Request to add or remove a signing authority.
#[derive(Debug, Clone)]
pub struct AddSignerParams {
    pub signer: Address,
    pub increase: bool,
}

/// Request to change a multisig approval threshold.
#[derive(Debug, Clone)]
pub struct ChangeNumApprovalsThresholdParams {
    pub new_threshold: u64,
}

/// The JSON-facing wrapper around one parameter variant. It carries no
/// explicit tag: JSON decoding recovers the variant purely by structural
/// matching, in declaration order, first match wins.
#[derive(Debug, Clone)]
pub enum ParamsAPI {
    AddSignerParamsAPI(AddSignerParams),
    ChangeNumApprovalsThresholdParamsAPI(ChangeNumApprovalsThresholdParams),
}

/// Names the variant a binary envelope encodes. The envelope itself is not
/// self-describing, so the tag travels out of band beside it.
#[derive(Debug, Clone, Copy, PartialEq, Eq, Structural)]
pub enum VariantTag {
    AddSigner,
    ChangeNumApprovalsThreshold,
}

/// Spec view of a parameter variant.
pub enum ParamsView {
    AddSigner { signer: AddrView, increase: bool },
    Threshold { new_threshold: u64 },
}

impl View for AddSignerParams {
    type V = ParamsView;

    open spec fn view(&self) -> ParamsView {
        ParamsView::AddSigner { signer: self.signer@, increase: self.increase }
    }
}

impl View for ChangeNumApprovalsThresholdParams {
    type V = ParamsView;

    open spec fn view(&self) -> ParamsView {
        ParamsView::Threshold { new_threshold: self.new_threshold }
    }
}

impl View for ParamsAPI {
    type V = ParamsView;

    open spec fn view(&self) -> ParamsView {
        match self {
            ParamsAPI::AddSignerParamsAPI(p) => p@,
            ParamsAPI::ChangeNumApprovalsThresholdParamsAPI(p) => p@,
        }
    }
}

impl PartialEq for AddSignerParams {
    fn eq(&self, o: &AddSignerParams) -> (r: bool) {
        self.signer == o.signer && self.increase == o.increase
    }
}

impl vstd::std_specs::cmp::PartialEqSpecImpl for AddSignerParams {
    open spec fn obeys_eq_spec() -> bool {
        true
    }

    open spec fn eq_spec(&self, o: &AddSignerParams) -> bool {
        self.signer@ == o.signer@ && self.increase == o.increase
    }
}

impl PartialEq for ChangeNumApprovalsThresholdParams {
    fn eq(&self, o: &ChangeNumApprovalsThresholdParams) -> (r: bool) {
        self.new_threshold == o.new_threshold
    }
}

impl vstd::std_specs::cmp::PartialEqSpecImpl for ChangeNumApprovalsThresholdParams {
    open spec fn obeys_eq_spec() -> bool {
        true
    }

    open spec fn eq_spec(&self, o: &ChangeNumApprovalsThresholdParams) -> bool {
        self.new_threshold == o.new_threshold
    }
}

impl PartialEq for ParamsAPI {
    fn eq(&self, o: &ParamsAPI) -> (r: bool) {
        match (self, o) {
            (ParamsAPI::AddSignerParamsAPI(a), ParamsAPI::AddSignerParamsAPI(b)) => a == b,
            (
                ParamsAPI::ChangeNumApprovalsThresholdParamsAPI(a),
                ParamsAPI::ChangeNumApprovalsThresholdParamsAPI(b),
            ) => a == b,
            _ => false,
        }
    }
}

impl vstd::std_specs::cmp::PartialEqSpecImpl for ParamsAPI {
    open spec fn obeys_eq_spec() -> bool {
        true
    }

    open spec fn eq_spec(&self, o: &ParamsAPI) -> bool {
        match (self, o) {
            (ParamsAPI::AddSignerParamsAPI(a), ParamsAPI::AddSignerParamsAPI(b)) => a.signer@
                == b.signer@ && a.increase == b.increase,
            (
                ParamsAPI::ChangeNumApprovalsThresholdParamsAPI(a),
                ParamsAPI::ChangeNumApprovalsThresholdParamsAPI(b),
            ) => a.new_threshold == b.new_threshold,
            _ => false,
        }
    }
}

/// A variant view is well formed when any embedded address byte form is.
pub open spec fn params_wf(p: ParamsView) -> bool {
    match p {
        ParamsView::AddSigner { signer, .. } => valid_addr_bytes(signer.bytes),
        ParamsView::Threshold { .. } => true,
    }
}

/// The tag that names a variant's shape.
pub open spec fn spec_tag_of(p: ParamsView) -> VariantTag {
    match p {
        ParamsView::AddSigner { .. } => VariantTag::AddSigner,
        ParamsView::Threshold { .. } => VariantTag::ChangeNumApprovalsThreshold,
    }
}

impl ParamsAPI {
    /// Whether this instance satisfies the variant invariant.
    pub open spec fn wf(&self) -> bool {
        params_wf(self@)
    }

    /// The out-of-band tag naming this instance's variant.
    pub fn tag(&self) -> (r: VariantTag)
        ensures
            r == spec_tag_of(self@),
    {
        match self {
            ParamsAPI::AddSignerParamsAPI(_) => VariantTag::AddSigner,
            ParamsAPI::ChangeNumApprovalsThresholdParamsAPI(_) => {
                VariantTag::ChangeNumApprovalsThreshold
            },
        }
    }
}

} // verus!
