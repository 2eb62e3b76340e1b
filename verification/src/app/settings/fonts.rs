//! The list of fonts that the user chooses from.

use vstd::prelude::*;
use vstd::string::*;
use crate::text;

verus! {

/// The families to choose from: those of the system and the default one, in
/// order, each once.
pub fn mono_font_families(system: &Vec<String>) -> (families: Vec<String>)
    ensures
        text::strictly_sorted(text::texts(families@)),
        forall|name: Seq<char>| #[trigger]
            text::texts(families@).contains(name) <==> name == "Cascadia Mono"@ || text::texts(
                system@,
            ).contains(name),
{
    let mut families: Vec<String> = Vec::new();
    let mut index: usize = 0;
    let ghost all = text::texts(system@);
    assert(forall|name: Seq<char>| !(#[trigger] text::texts(families@).contains(name)));
    while index < system.len()
        invariant
            index <= system@.len(),
            all == text::texts(system@),
            text::strictly_sorted(text::texts(families@)),
            forall|name: Seq<char>| #[trigger]
                text::texts(families@).contains(name) <==> all.take(index as int).contains(name),
        decreases system.len() - index,
    {
        let ghost before = text::texts(families@);
        text::insert_sorted(&mut families, system[index].clone());
        proof {
            let taken = all.take(index as int);
            let more = all.take(index + 1);
            assert(more == taken.push(system@[index as int]@));
            assert forall|name: Seq<char>| #[trigger]
                text::texts(families@).contains(name) <==> more.contains(name) by {
                assert(before.contains(name) <==> taken.contains(name));
                if more.contains(name) {
                    let i = choose|i: int| 0 <= i < more.len() && more[i] == name;
                    if i < taken.len() {
                        assert(taken[i] == name);
                    }
                }
                if taken.contains(name) {
                    let i = choose|i: int| 0 <= i < taken.len() && taken[i] == name;
                    assert(more[i] == name);
                }
                assert(more[taken.len() as int] == system@[index as int]@);
            }
        }
        index += 1;
    }
    assert(all.take(index as int) == all);
    text::insert_sorted(&mut families, "Cascadia Mono".to_owned());
    families
}

} // verus!
