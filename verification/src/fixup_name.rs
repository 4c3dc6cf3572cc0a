use vstd::prelude::*;

use crate::text::{contains_text, has_infix, occurs_at, replace_all, replace_text};

verus! {

/// What to do with a cached file name whose user id may have been written in lower case.
#[derive(Debug)]
pub enum NameFix {
    /// Rename the file to this name.
    Rename(String),
    /// The name already has the upper-case user id.
    AlreadyFixed,
    /// The name holds neither form of the user id.
    Unknown,
}

/// What to do with a file name: a name that holds `@n06` is renamed with every `@n06`
/// written `@N06`; one that holds `@N06` is left; any other is unknown.
pub fn fixup_name(file_name: &str) -> (r: NameFix)
    ensures
        has_infix(file_name@, "@n06"@) ==> (r matches NameFix::Rename(n) && n@ == replace_all(
            file_name@,
            "@n06"@,
            "@N06"@,
        )),
        !has_infix(file_name@, "@n06"@) && has_infix(file_name@, "@N06"@) ==> r is AlreadyFixed,
        !has_infix(file_name@, "@n06"@) && !has_infix(file_name@, "@N06"@) ==> r is Unknown,
{
    if contains_text(file_name, "@n06") {
        proof {
            reveal_strlit("@n06");
        }
        NameFix::Rename(replace_text(file_name, "@n06", "@N06"))
    } else if contains_text(file_name, "@N06") {
        NameFix::AlreadyFixed
    } else {
        NameFix::Unknown
    }
}

/// The lower-case form of the user id.
pub open spec fn lower_id() -> Seq<char> {
    "@n06"@
}

/// The upper-case form of the user id.
pub open spec fn upper_id() -> Seq<char> {
    "@N06"@
}

/// The fixed form of a name.
pub open spec fn fixed(s: Seq<char>) -> Seq<char> {
    replace_all(s, lower_id(), upper_id())
}

proof fn lemma_ids()
    ensures
        lower_id().len() == 4,
        upper_id().len() == 4,
        lower_id()[0] == '@' && lower_id()[1] == 'n' && lower_id()[2] == '0' && lower_id()[3] == '6',
        upper_id()[0] == '@' && upper_id()[1] == 'N' && upper_id()[2] == '0' && upper_id()[3] == '6',
{
    reveal_strlit("@n06");
    reveal_strlit("@N06");
}

/// Fixing keeps the first character.
proof fn lemma_fixed_first(x: Seq<char>)
    requires
        x.len() > 0,
    ensures
        fixed(x).len() > 0,
        fixed(x)[0] == x[0],
{
    lemma_ids();
    if x.len() >= 4 && x.take(4) == lower_id() {
        assert(x[0] == x.take(4)[0]);
    }
}

/// A stretch without `@` is copied as it is.
proof fn lemma_fixed_plain_prefix(x: Seq<char>, k: int)
    requires
        0 <= k <= x.len(),
        forall|j: int| 0 <= j < k ==> x[j] != '@',
    ensures
        fixed(x) == x.take(k) + fixed(x.skip(k)),
    decreases k,
{
    lemma_ids();
    if k == 0 {
        assert(x.skip(0) =~= x);
        assert(x.take(0) =~= Seq::<char>::empty());
    } else {
        if x.len() >= 4 {
            assert(x.take(4)[0] != lower_id()[0]);
        }
        let t = x.skip(1);
        assert(fixed(x) == seq![x[0]] + fixed(t));
        assert forall|j: int| 0 <= j < k - 1 implies t[j] != '@' by {
            assert(t[j] == x[j + 1]);
        }
        lemma_fixed_plain_prefix(t, k - 1);
        assert(t.skip(k - 1) =~= x.skip(k));
        assert(seq![x[0]] + t.take(k - 1) =~= x.take(k));
    }
}

/// A fixed text begins with `n06` only where the text itself does.
proof fn lemma_fixed_tail_start(x: Seq<char>)
    requires
        fixed(x).len() >= 3,
        fixed(x)[0] == 'n',
        fixed(x)[1] == '0',
        fixed(x)[2] == '6',
    ensures
        x.len() >= 3 && x[0] == 'n' && x[1] == '0' && x[2] == '6',
{
    lemma_ids();
    assert(fixed(Seq::<char>::empty()) =~= Seq::<char>::empty());
    let x1 = x.skip(1);
    let x2 = x1.skip(1);
    assert(x.len() > 0);
    lemma_fixed_first(x);
    lemma_fixed_plain_prefix(x, 1);
    assert(fixed(x) =~= seq![x[0]] + fixed(x1));
    assert(fixed(x1).len() >= 2 && fixed(x1)[0] == '0' && fixed(x1)[1] == '6');
    assert(x1.len() > 0);
    lemma_fixed_first(x1);
    lemma_fixed_plain_prefix(x1, 1);
    assert(fixed(x1) =~= seq![x1[0]] + fixed(x2));
    assert(fixed(x2).len() >= 1 && fixed(x2)[0] == '6');
    assert(x2.len() > 0);
    lemma_fixed_first(x2);
    assert(x[1] == x1[0] && x[2] == x2[0]);
}

proof fn lemma_fixed_has_no_lower(s: Seq<char>)
    ensures
        !has_infix(fixed(s), lower_id()),
    decreases s.len(),
{
    lemma_ids();
    let r = fixed(s);
    if s.len() < 4 {
        assert(r == s);
        assert forall|i: int| !occurs_at(r, i, lower_id()) by {
        }
    } else if s.take(4) == lower_id() {
        let rest = s.skip(4);
        lemma_fixed_has_no_lower(rest);
        assert(r == upper_id() + fixed(rest));
        assert forall|i: int| !occurs_at(r, i, lower_id()) by {
            if occurs_at(r, i, lower_id()) {
                if i >= 4 {
                    assert(fixed(rest).subrange(i - 4, i) =~= r.subrange(i, i + 4));
                    assert(occurs_at(fixed(rest), i - 4, lower_id()));
                } else {
                    assert(r.subrange(i, i + 4)[0] == r[i]);
                    assert(r.subrange(i, i + 4)[1] == r[i + 1]);
                }
            }
        }
    } else {
        let rest = s.skip(1);
        lemma_fixed_has_no_lower(rest);
        assert(r == seq![s[0]] + fixed(rest));
        assert forall|i: int| !occurs_at(r, i, lower_id()) by {
            if occurs_at(r, i, lower_id()) {
                let w = r.subrange(i, i + 4);
                if i >= 1 {
                    assert(fixed(rest).subrange(i - 1, i + 3) =~= w);
                    assert(occurs_at(fixed(rest), i - 1, lower_id()));
                } else {
                    assert(w[0] == s[0] && w[1] == fixed(rest)[0] && w[2] == fixed(rest)[1] && w[3]
                        == fixed(rest)[2]);
                    lemma_fixed_tail_start(rest);
                    assert(rest[0] == s[1] && rest[1] == s[2] && rest[2] == s[3]);
                    assert(s.take(4) =~= lower_id());
                }
            }
        }
    }
}

proof fn lemma_fixed_has_upper(s: Seq<char>)
    requires
        has_infix(s, lower_id()),
    ensures
        has_infix(fixed(s), upper_id()),
    decreases s.len(),
{
    lemma_ids();
    let i = choose|i: int| occurs_at(s, i, lower_id());
    if s.take(4) == lower_id() {
        let r = fixed(s);
        assert(r == upper_id() + fixed(s.skip(4)));
        assert(r.subrange(0, 4) =~= upper_id());
        assert(occurs_at(r, 0, upper_id()));
    } else {
        if i == 0 {
            assert(s.take(4) =~= s.subrange(0, 4));
        }
        let rest = s.skip(1);
        assert(rest.subrange(i - 1, i + 3) =~= s.subrange(i, i + 4));
        assert(occurs_at(rest, i - 1, lower_id()));
        lemma_fixed_has_upper(rest);
        let r = fixed(s);
        assert(r == seq![s[0]] + fixed(rest));
        let k = choose|k: int| occurs_at(fixed(rest), k, upper_id());
        assert(r.subrange(k + 1, k + 5) =~= fixed(rest).subrange(k, k + 4));
        assert(occurs_at(r, k + 1, upper_id()));
    }
}

/// A renamed file is not renamed again: its new name holds `@N06` and no `@n06`, so
/// `fixup_name` finds it already fixed.
pub proof fn lemma_renamed_is_fixed(name: Seq<char>)
    requires
        has_infix(name, "@n06"@),
    ensures
        !has_infix(replace_all(name, "@n06"@, "@N06"@), "@n06"@),
        has_infix(replace_all(name, "@n06"@, "@N06"@), "@N06"@),
{
    lemma_fixed_has_no_lower(name);
    lemma_fixed_has_upper(name);
}

} // verus!
