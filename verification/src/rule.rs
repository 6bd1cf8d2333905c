pub mod abstract_rule;
pub mod anchor_laws;
pub mod back_reference;
pub mod compiled_rule;
pub mod matcher;
pub mod reg_exp_source;
pub mod reg_exp_source_list;

pub use abstract_rule::AbstractRule;
pub use compiled_rule::CompiledRule;
pub use reg_exp_source::{AnchorCache, RegExpSource};
pub use reg_exp_source_list::{IRegExpSourceListAnchorCache, RegExpSourceList};
