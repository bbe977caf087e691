use vstd::prelude::*;

verus! {

/// Facts about dropping the first occurrence of `id` from a list without
/// repeated entries.
pub proof fn lemma_remove_value(s: Seq<u64>, id: u64)
    requires
        s.no_duplicates(),
    ensures
        s.remove_value(id).no_duplicates(),
        forall|x: u64| #[trigger]
            s.remove_value(id).contains(x) <==> (s.contains(x) && x != id),
        s.remove_value(id).len() == if s.contains(id) {
            s.len() - 1
        } else {
            s.len() as int
        },
{
    s.index_of_first_ensures(id);
    match s.index_of_first(id) {
        Some(i) => {
            let r = s.remove(i);
            assert forall|x: u64| #[trigger] r.contains(x) <==> (s.contains(x) && x != id) by {
                if r.contains(x) {
                    let j = choose|j: int| 0 <= j < r.len() && r[j] == x;
                    if j < i {
                        assert(s[j] == x);
                    } else {
                        assert(s[j + 1] == x);
                    }
                }
                if s.contains(x) && x != id {
                    let j = choose|j: int| 0 <= j < s.len() && s[j] == x;
                    if j < i {
                        assert(r[j] == x);
                    } else {
                        assert(r[j - 1] == x);
                    }
                }
            }
        },
        None => {},
    }
}

/// Facts about appending an id that is not yet in a list.
pub proof fn lemma_push_fresh(s: Seq<u64>, id: u64)
    requires
        s.no_duplicates(),
        !s.contains(id),
    ensures
        s.push(id).no_duplicates(),
        forall|x: u64| #[trigger] s.push(id).contains(x) <==> (s.contains(x) || x == id),
{
    assert forall|x: u64| #[trigger] s.push(id).contains(x) <==> (s.contains(x) || x == id) by {
        if s.contains(x) {
            let j = choose|j: int| 0 <= j < s.len() && s[j] == x;
            assert(s.push(id)[j] == x);
        }
        if x == id {
            assert(s.push(id)[s.len() as int] == x);
        }
        if s.push(id).contains(x) {
            let j = choose|j: int| 0 <= j < s.len() + 1 && s.push(id)[j] == x;
            if j < s.len() {
                assert(s[j] == x);
            }
        }
    }
}

/// Drops the first occurrence of `id` from `v`, if there is one.
pub fn remove_id(v: &mut Vec<u64>, id: u64)
    ensures
        final(v)@ == old(v)@.remove_value(id),
{
    let mut i: usize = 0;
    while i < v.len()
        invariant
            i <= v@.len(),
            v@ == old(v)@,
            forall|j: int| 0 <= j < i ==> v@[j] != id,
        decreases v@.len() - i,
    {
        if v[i] == id {
            proof {
                v@.index_of_first_ensures(id);
                match v@.index_of_first(id) {
                    Some(k) => {
                        assert(k == i);
                    },
                    None => {
                        assert(v@[i as int] == id);
                        assert(v@.contains(id));
                    },
                }
            }
            v.remove(i);
            return;
        }
        i = i + 1;
    }
    proof {
        v@.index_of_first_ensures(id);
    }
}

} // verus!
