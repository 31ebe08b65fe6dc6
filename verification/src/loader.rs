//! Building the index from the mock sources found in the mock directory.

use vstd::prelude::*;
use crate::config::{source_rules, MockRule, MockSource};
use crate::index::{index_of, lemma_index_of_push, MockIndex};
use crate::text::{ends_with, first_segment, first_segment_of, has_suffix};

verus! {

/// The rules of all sources, source after source, each in its file's order.
pub open spec fn all_rules(sources: Seq<MockSource>) -> Seq<MockRule>
    decreases sources.len(),
{
    if sources.len() == 0 {
        Seq::empty()
    } else {
        all_rules(sources.drop_last()) + source_rules(sources.last())
    }
}

/// Whether a file name has the extension `yaml` or `yml`. The extension is
/// what follows the last `.`, and a name whose only `.` is its first
/// character has none; as `yaml` and `yml` hold no `.`, this is a suffix
/// test with at least one character before the `.`.
pub open spec fn is_yaml_name(name: Seq<char>) -> bool {
    ||| (has_suffix(name, seq!['.', 'y', 'a', 'm', 'l']) && name.len() > 5)
    ||| (has_suffix(name, seq!['.', 'y', 'm', 'l']) && name.len() > 4)
}

/// Loads mock rules into an index.
pub struct MockLoader;

impl MockLoader {
    /// Whether a file with this name holds mock rules (`.yaml` or `.yml`).
    pub fn is_yaml_file(file_name: &str) -> (r: bool)
        ensures
            r == is_yaml_name(file_name@),
    {
        proof {
            reveal_strlit(".yaml");
            reveal_strlit(".yml");
            assert(".yaml"@ =~= seq!['.', 'y', 'a', 'm', 'l']);
            assert(".yml"@ =~= seq!['.', 'y', 'm', 'l']);
        }
        let n: usize = file_name.unicode_len();
        (n > 5 && ends_with(file_name, ".yaml")) || (n > 4 && ends_with(file_name, ".yml"))
    }

    /// The index of the rules of `sources`, taken in order: each rule is
    /// added under the first segment of its path, after the rules before it.
    pub fn build_index(sources: Vec<MockSource>) -> (r: MockIndex)
        ensures
            r@ == index_of(all_rules(sources@)),
    {
        let mut index = MockIndex::new();
        let ghost all = sources@;
        assert(index@ =~= index_of(all_rules(all.take(0))));
        for source in it: sources
            invariant
                it.seq() == all,
                index@ == index_of(all_rules(all.take(it.index() as int))),
        {
            let ghost i: int = it.index() as int;
            let ghost before = all_rules(all.take(i));
            proof {
                assert(all.take(i + 1).drop_last() =~= all.take(i));
                assert(all.take(i + 1).last() == source);
            }
            let rules = source.flatten();
            let ghost these = rules@;
            assert(index@ == index_of(before + these.take(0))) by {
                assert(before + these.take(0) =~= before);
            }
            for rule in jt: rules
                invariant
                    jt.seq() == these,
                    index@ == index_of(before + these.take(jt.index() as int)),
            {
                proof {
                    let j: int = jt.index() as int;
                    assert(before + these.take(j + 1) =~= (before + these.take(j)).push(rule));
                    lemma_index_of_push(before + these.take(j), rule);
                }
                let key = Self::extract_first_segment(rule.request.path.as_str());
                index.insert_keyed(key, rule);
            }
            assert(before + these.take(these.len() as int) =~= all_rules(all.take(i + 1)));
        }
        assert(all.take(all.len() as int) =~= all);
        index
    }

    /// The index key of a path: its first segment (`"/api/v1/login"` gives
    /// `"api"`), or `"root"` for the root path `"/"`.
    fn extract_first_segment(path: &str) -> (r: String)
        ensures
            r@ == first_segment(path@),
    {
        first_segment_of(path)
    }
}

} // verus!
