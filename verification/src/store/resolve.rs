//! The properties that the configuration files set for a path.
use vstd::prelude::*;

use crate::config::Editorconfig;
use crate::model::{applied, configs_of, stacked, ConfigModel};
use crate::outside::{
    apply_section, held_sections, properties_pairs, section_header, section_model, section_pairs,
    sections_slice, value_of, with_fallbacks, SectionModel, Sections,
};
use crate::paths::{slash_joined, RelPath, WorktreeId};
use crate::precedence::{
    law_fallbacks_keep_other_properties, law_fallbacks_of_nothing, lemma_applied_distinct,
    lemma_leading,
};
use crate::store::listing::{entry_model, list_model};
use crate::store::EditorconfigStore;
use ec4rs::Section;

verus! {

/// The properties of a file, by their names.
pub type EditorconfigProperties = ec4rs::Properties;

/// What sections say.
pub open spec fn sections_model(sections: Seq<&Section>) -> Seq<SectionModel> {
    sections.map_values(|section: &Section| section_model(*section))
}

/// Adds the sections of a file after others.
fn append_sections<'a>(sections: &mut Vec<&'a Section>, added: &'a Sections)
    ensures
        sections_model(final(sections)@) == sections_model(old(sections)@) + held_sections(*added),
{
    let ghost before = sections@;
    let slice = sections_slice(added);
    let mut i: usize = 0;
    assert(held_sections(*added).take(0) =~= Seq::<SectionModel>::empty());
    assert(sections_model(sections@) =~= sections_model(before) + held_sections(*added).take(0));
    while i < slice.len()
        invariant
            i <= slice@.len(),
            slice@.map_values(|s: Section| section_model(s)) == held_sections(*added),
            sections_model(sections@) == sections_model(before) + held_sections(*added).take(
                i as int,
            ),
        decreases slice@.len() - i,
    {
        let ghost earlier = sections@;
        sections.push(&slice[i]);
        proof {
            let held = held_sections(*added);
            assert(held[i as int] == section_model(slice@[i as int]));
            assert(held.take(i + 1) =~= held.take(i as int).push(held[i as int]));
            assert(sections_model(sections@) =~= sections_model(earlier).push(held[i as int]));
            assert(sections_model(sections@) =~= sections_model(before) + held.take(i + 1));
        }
        i = i + 1;
    }
    assert(held_sections(*added).take(i as int) =~= held_sections(*added));
}

/// Lays the sections of a file on top of others.
fn stack<'a>(sections: Vec<&'a Section>, editorconfig: &'a Editorconfig) -> (stacked: Vec<
    &'a Section,
>)
    ensures
        sections_model(stacked@) == (if editorconfig@.is_root {
            editorconfig@.sections
        } else {
            sections_model(sections@) + editorconfig@.sections
        }),
{
    let mut stacked: Vec<&'a Section> = if editorconfig.is_root {
        Vec::new()
    } else {
        sections
    };
    let ghost below = sections_model(stacked@);
    append_sections(&mut stacked, &editorconfig.sections);
    proof {
        if editorconfig.is_root {
            assert(below =~= Seq::<SectionModel>::empty());
            assert(below + editorconfig@.sections =~= editorconfig@.sections);
        }
    }
    stacked
}

impl EditorconfigStore {
    /// Whether the file in the worktree's own root directory is a root file.
    fn is_own_root(&self, worktree_id: WorktreeId) -> (own_root: bool)
        requires
            self.wf(),
        ensures
            own_root == self@.is_own_root(worktree_id@),
    {
        let id: usize = worktree_id.to_usize();
        match self.worktree_editorconfig_state.get(&id) {
            None => false,
            Some(state) => match state.internal_configs.get(&RelPath::empty()) {
                None => false,
                Some(data) => match &data.parsed {
                    None => false,
                    Some(editorconfig) => editorconfig.is_root,
                },
            },
        }
    }

    /// The sections that govern a path, from the weakest to the strongest; `None` where a file
    /// that has to be consulted could not be read.
    pub fn governing_sections(&self, for_worktree: WorktreeId, for_path: &RelPath) -> (governing:
        Option<Vec<&Section>>)
        requires
            self.wf(),
        ensures
            match governing {
                Some(sections) => self@.governing(for_worktree@, for_path@) == Some(
                    sections_model(sections@),
                ),
                None => self@.governing(for_worktree@, for_path@) is None,
            },
    {
        let ghost id = for_worktree@;
        let mut sections: Vec<&Section> = Vec::new();
        assert(sections_model(sections@) =~= Seq::<SectionModel>::empty());
        if !self.is_own_root(for_worktree) {
            let external = self.external_configs(for_worktree);
            let ghost configs = configs_of(self@.external_list(id));
            let mut i: usize = 0;
            assert(configs.take(0) =~= Seq::<ConfigModel>::empty());
            while i < external.len()
                invariant
                    i <= external@.len(),
                    list_model(external@) == self@.external_list(id),
                    configs == configs_of(self@.external_list(id)),
                    sections_model(sections@) == stacked(Seq::empty(), configs.take(i as int)),
                decreases external@.len() - i,
            {
                proof {
                    let now = configs.take(i + 1);
                    assert(now.drop_last() =~= configs.take(i as int));
                    assert(list_model(external@)[i as int] == self@.external_list(id)[i as int]);
                    assert(now.last() == entry_model(external@[i as int]).1);
                }
                match external[i].2 {
                    Some(editorconfig) => {
                        sections = stack(sections, editorconfig);
                    },
                    None => {},
                }
                i = i + 1;
            }
            assert(configs.take(i as int) =~= configs);
        }
        let ghost outer = sections_model(sections@);
        let internal = self.internal_configs(for_worktree);
        let ghost list = self@.internal_list(id);
        let ghost configs = configs_of(list);
        let mut i: usize = 0;
        assert(configs.take(0) =~= Seq::<ConfigModel>::empty());
        while i < internal.len()
            invariant
                id == for_worktree@,
                i <= internal@.len(),
                list_model(internal@) == list,
                list == self@.internal_list(id),
                configs == configs_of(list),
                forall|j: int| 0 <= j < i ==> (#[trigger] list[j]).0.is_prefix_of(for_path@),
                forall|j: int| 0 <= j < i ==> (#[trigger] configs[j]).parsed is Some,
                sections_model(sections@) == stacked(outer, configs.take(i as int)),
                outer == (if self@.is_own_root(id) {
                    Seq::empty()
                } else {
                    stacked(Seq::empty(), configs_of(self@.external_list(id)))
                }),
            ensures
                i <= list.len(),
                i == list.len() || !list[i as int].0.is_prefix_of(for_path@),
            decreases internal@.len() - i,
        {
            let (directory_with_config, _, parsed_editorconfig) = internal[i];
            proof {
                assert(list_model(internal@)[i as int] == list[i as int]);
                assert(list[i as int] == entry_model(internal@[i as int]));
                let now = configs.take(i + 1);
                assert(now.drop_last() =~= configs.take(i as int));
                assert(now.last() == list[i as int].1);
            }
            if !for_path.starts_with(directory_with_config) {
                break;
            }
            match parsed_editorconfig {
                None => {
                    proof {
                        lemma_leading(list, for_path@, i + 1);
                        let consulted = configs_of(self@.consulted(id, for_path@));
                        assert(consulted[i as int] == configs[i as int]);
                        assert(consulted[i as int].parsed is None);
                    }
                    return None;
                },
                Some(editorconfig) => {
                    sections = stack(sections, editorconfig);
                },
            }
            i = i + 1;
        }
        proof {
            lemma_leading(list, for_path@, i as int);
            let consulted = configs_of(self@.consulted(id, for_path@));
            assert(consulted =~= configs.take(i as int));
            assert forall|j: int| 0 <= j < consulted.len() implies (#[trigger] consulted[j]).parsed
                is Some by {
                assert(consulted[j] == configs[j]);
            }
        }
        Some(sections)
    }

    /// The properties that the configuration files set for a path in a worktree; `None` where a
    /// file that has to be consulted could not be read.
    pub fn properties(&self, for_worktree: WorktreeId, for_path: &RelPath) -> (properties: Option<
        EditorconfigProperties,
    >)
        requires
            self.wf(),
        ensures
            match properties {
                Some(properties) => {
                    &&& self@.governing(for_worktree@, for_path@) matches Some(sections)
                    &&& properties_pairs(properties) == with_fallbacks(
                        applied(sections, slash_joined(for_path@)),
                    )
                    &&& forall|key: Seq<char>|
                        key != "indent_size"@ && key != "tab_width"@ ==> value_of(
                            properties_pairs(properties),
                            key,
                        ) == #[trigger] value_of(applied(sections, slash_joined(for_path@)), key)
                    &&& applied(sections, slash_joined(for_path@)).len() == 0
                        ==> properties_pairs(properties).len() == 0
                },
                None => self@.governing(for_worktree@, for_path@) is None,
            },
    {
        let sections = match self.governing_sections(for_worktree, for_path) {
            Some(sections) => sections,
            None => {
                return None;
            },
        };
        let path = for_path.as_unix_str();
        let ghost all = sections_model(sections@);
        let mut properties = EditorconfigProperties::new();
        let mut i: usize = 0;
        while i < sections.len()
            invariant
                i <= sections@.len(),
                all == sections_model(sections@),
                path@ == slash_joined(for_path@),
                properties_pairs(properties) == applied(all.take(i as int), path@),
            decreases sections@.len() - i,
        {
            proof {
                assert(all.take(i + 1).drop_last() =~= all.take(i as int));
                assert(all.take(i + 1).last() == section_model(*sections@[i as int]));
            }
            if let Err(_) = apply_section(sections[i], &mut properties, path.as_str()) {
                return None;
            }
            i = i + 1;
        }
        assert(all.take(i as int) =~= all);
        properties.use_fallbacks();
        proof {
            let pairs = applied(all, path@);
            lemma_applied_distinct(all, path@);
            assert forall|key: Seq<char>|
                key != "indent_size"@ && key != "tab_width"@ implies value_of(
                properties_pairs(properties),
                key,
            ) == #[trigger] value_of(pairs, key) by {
                law_fallbacks_keep_other_properties(pairs, key);
            }
            if pairs.len() == 0 {
                assert(pairs =~= Seq::empty());
                law_fallbacks_of_nothing();
            }
        }
        Some(properties)
    }
}

/// Sections say their headers and their properties, one after the other.
pub proof fn law_sections_model(sections: Seq<&Section>, i: int)
    requires
        0 <= i < sections.len(),
    ensures
        sections_model(sections).len() == sections.len(),
        sections_model(sections)[i].0 == section_header(*sections[i]),
        sections_model(sections)[i].1 == section_pairs(*sections[i]),
{
}

} // verus!
