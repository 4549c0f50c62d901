use vstd::prelude::*;

verus! {

/// The kinds of stone a stage can hand the player.
#[derive(Clone, Copy, Debug, PartialEq, Eq, Hash, Structural)]
pub enum StoneType {
    Type1,
    Type2,
    Type3,
    Type4,
}

impl Default for StoneType {
    /// The first kind of stone.
    fn default() -> (r: StoneType)
        ensures
            r == StoneType::Type1,
    {
        StoneType::Type1
    }
}

/// The script commands a kind of stone understands, in the order they are
/// listed; the last kind has no list of its own.
pub open spec fn spec_capabilities(t: StoneType) -> Option<Seq<Seq<char>>> {
    match t {
        StoneType::Type1 => Some(seq!["move"@, "sleep"@]),
        StoneType::Type2 => Some(seq!["move"@, "is_touched"@, "is_empty"@]),
        StoneType::Type3 => Some(seq!["move"@, "sleep"@, "is_touched"@, "is_empty"@, "dig"@]),
        StoneType::Type4 => None,
    }
}

pub open spec fn names_view(names: Seq<String>) -> Seq<Seq<char>> {
    names.map_values(|s: String| s@)
}

/// Which commands each kind of stone understands.
pub struct StoneCapabilities {
    entries: Vec<(StoneType, Vec<String>)>,
}

/// Whether `entries` gives every kind of stone with a list of commands
/// exactly that list, and no other kind a list.
pub open spec fn caps_ok(entries: Seq<(StoneType, Vec<String>)>) -> bool {
    forall|t: StoneType| {
        &&& (#[trigger] spec_capabilities(t)) is Some <==> exists|i: int|
            0 <= i < entries.len() && entries[i].0 == t
        &&& forall|i: int|
            0 <= i < entries.len() && entries[i].0 == t ==> Some(names_view(entries[i].1@))
                == spec_capabilities(t)
    }
}

impl StoneCapabilities {
    #[verifier::type_invariant]
    spec fn wf(&self) -> bool {
        caps_ok(self.entries@)
    }

    /// The list of commands held for stones of kind `t`, if one is held.
    pub closed spec fn commands_of(&self, t: StoneType) -> Option<Seq<Seq<char>>> {
        if exists|i: int| 0 <= i < self.entries@.len() && #[trigger] self.entries@[i].0 == t {
            let i = choose|i: int| 0 <= i < self.entries@.len() && #[trigger] self.entries@[i].0 == t;
            Some(names_view(self.entries@[i].1@))
        } else {
            None
        }
    }

    /// The commands each kind of stone understands, as the game ships them.
    pub fn new() -> (r: StoneCapabilities)
        ensures
            forall|t: StoneType| #[trigger] r.commands_of(t) == spec_capabilities(t),
    {
        let mut type1: Vec<String> = Vec::new();
        type1.push("move".to_owned());
        type1.push("sleep".to_owned());
        let mut type2: Vec<String> = Vec::new();
        type2.push("move".to_owned());
        type2.push("is_touched".to_owned());
        type2.push("is_empty".to_owned());
        let mut type3: Vec<String> = Vec::new();
        type3.push("move".to_owned());
        type3.push("sleep".to_owned());
        type3.push("is_touched".to_owned());
        type3.push("is_empty".to_owned());
        type3.push("dig".to_owned());
        let mut entries: Vec<(StoneType, Vec<String>)> = Vec::new();
        entries.push((StoneType::Type1, type1));
        entries.push((StoneType::Type2, type2));
        entries.push((StoneType::Type3, type3));
        proof {
            assert(names_view(entries@[0].1@) =~= seq!["move"@, "sleep"@]);
            assert(names_view(entries@[1].1@) =~= seq!["move"@, "is_touched"@, "is_empty"@]);
            assert(names_view(entries@[2].1@) =~= seq![
                "move"@,
                "sleep"@,
                "is_touched"@,
                "is_empty"@,
                "dig"@,
            ]);
            assert forall|t: StoneType| {
                &&& (#[trigger] spec_capabilities(t)) is Some <==> exists|i: int|
                    0 <= i < entries@.len() && entries@[i].0 == t
                &&& forall|i: int|
                    0 <= i < entries@.len() && entries@[i].0 == t ==> Some(
                        names_view(entries@[i].1@),
                    ) == spec_capabilities(t)
            } by {
                match t {
                    StoneType::Type1 => assert(entries@[0].0 == t),
                    StoneType::Type2 => assert(entries@[1].0 == t),
                    StoneType::Type3 => assert(entries@[2].0 == t),
                    StoneType::Type4 => {},
                }
            }
            assert(caps_ok(entries@));
        }
        let r = StoneCapabilities { entries };
        proof {
            assert forall|t: StoneType| #[trigger] r.commands_of(t) == spec_capabilities(t) by {
                if exists|i: int| 0 <= i < r.entries@.len() && #[trigger] r.entries@[i].0 == t {
                    let i = choose|i: int| 0 <= i < r.entries@.len() && #[trigger] r.entries@[i].0 == t;
                    assert(Some(names_view(r.entries@[i].1@)) == spec_capabilities(t));
                }
            }
        }
        r
    }

    /// The commands stones of kind `stone_type` understand, if the kind has
    /// a list.
    pub fn get_capabilities(&self, stone_type: StoneType) -> (r: Option<&Vec<String>>)
        ensures
            match r {
                Some(v) => spec_capabilities(stone_type) == Some(names_view(v@)),
                None => spec_capabilities(stone_type) is None,
            },
    {
        proof {
            use_type_invariant(self);
        }
        let mut i: usize = 0;
        while i < self.entries.len()
            invariant
                self.wf(),
                i <= self.entries.len(),
                forall|k: int| 0 <= k < i ==> (#[trigger] self.entries@[k]).0 != stone_type,
            decreases self.entries.len() - i,
        {
            if self.entries[i].0 == stone_type {
                assert(spec_capabilities(stone_type) is Some);
                return Some(&self.entries[i].1);
            }
            i += 1;
        }
        assert(spec_capabilities(stone_type) is None);
        None
    }
}

/// The command lists the game ships: every kind of stone with a list can
/// move; the first kind moves and sleeps; the second moves and senses
/// (`is_touched`, `is_empty`) but cannot sleep; the third can do everything
/// the first two can and also dig; no other kind digs, and the last kind has
/// no list at all.
pub proof fn lemma_shipped_capabilities()
    ensures
        spec_capabilities(StoneType::Type1) matches Some(l) && l.to_set() == set!["move"@, "sleep"@] && l.len() == 2,
        spec_capabilities(StoneType::Type2) matches Some(l) && l.to_set() == set!["move"@, "is_touched"@, "is_empty"@]
            && l.len() == 3,
        spec_capabilities(StoneType::Type3) matches Some(l3) && {
            &&& l3.contains("dig"@)
            &&& forall|c: Seq<char>| spec_capabilities(StoneType::Type1)->0.contains(c) ==> l3.contains(c)
            &&& forall|c: Seq<char>| spec_capabilities(StoneType::Type2)->0.contains(c) ==> l3.contains(c)
        },
        spec_capabilities(StoneType::Type4) is None,
        forall|t: StoneType| spec_capabilities(t) is Some ==> spec_capabilities(t)->0.contains("move"@),
        forall|t: StoneType| t != StoneType::Type3 && spec_capabilities(t) is Some ==> !spec_capabilities(t)->0.contains("dig"@),
{
    reveal_strlit("move");
    reveal_strlit("sleep");
    reveal_strlit("is_touched");
    reveal_strlit("is_empty");
    reveal_strlit("dig");
    let l1 = spec_capabilities(StoneType::Type1)->0;
    let l2 = spec_capabilities(StoneType::Type2)->0;
    let l3 = spec_capabilities(StoneType::Type3)->0;
    assert(l1.to_set() =~= set!["move"@, "sleep"@]) by {
        assert forall|c: Seq<char>| l1.contains(c) <==> (c == "move"@ || c == "sleep"@) by {
            if c == "move"@ { assert(l1[0] == c); }
            if c == "sleep"@ { assert(l1[1] == c); }
        }
    }
    assert(l2.to_set() =~= set!["move"@, "is_touched"@, "is_empty"@]) by {
        assert forall|c: Seq<char>| l2.contains(c) <==> (c == "move"@ || c == "is_touched"@ || c == "is_empty"@) by {
            if c == "move"@ { assert(l2[0] == c); }
            if c == "is_touched"@ { assert(l2[1] == c); }
            if c == "is_empty"@ { assert(l2[2] == c); }
        }
    }
    assert(l3[4] == "dig"@);
    assert forall|c: Seq<char>| l1.contains(c) implies l3.contains(c) by {
        let i = choose|i: int| 0 <= i < l1.len() && l1[i] == c;
        if i == 0 { assert(l3[0] == c); } else { assert(l3[1] == c); }
    }
    assert forall|c: Seq<char>| l2.contains(c) implies l3.contains(c) by {
        let i = choose|i: int| 0 <= i < l2.len() && l2[i] == c;
        if i == 0 { assert(l3[0] == c); } else if i == 1 { assert(l3[2] == c); } else { assert(l3[3] == c); }
    }
    assert forall|t: StoneType| spec_capabilities(t) is Some implies spec_capabilities(t)->0.contains("move"@) by {
        assert(spec_capabilities(t)->0[0] == "move"@);
    }
    assert forall|t: StoneType| t != StoneType::Type3 && spec_capabilities(t) is Some implies !spec_capabilities(
        t,
    )->0.contains("dig"@) by {
        let l = spec_capabilities(t)->0;
        if l.contains("dig"@) {
            let i = choose|i: int| 0 <= i < l.len() && l[i] == "dig"@;
            assert("dig"@.len() == 3);
            assert(l[i].len() != 3);
        }
    }
}

} // verus!
