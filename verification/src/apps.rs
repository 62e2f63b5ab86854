//! Trimming the device's app list. The vendor's own reverse-domain bundle
//! namespace is dropped, and what remains is split into the preferred apps —
//! those whose display name contains a known app name — and the rest.

use vstd::prelude::*;

verus! {

/// `n` occurs in `h` starting at `i`.
pub open spec fn contains_at(h: Seq<char>, n: Seq<char>, i: int) -> bool {
    0 <= i && i + n.len() <= h.len() && h.subrange(i, i + n.len()) == n
}

/// `n` occurs somewhere in `h`.
pub open spec fn has_substring(h: Seq<char>, n: Seq<char>) -> bool {
    exists|i: int| contains_at(h, n, i)
}

/// Whether `n` occurs in `h`.
pub fn str_contains(h: &str, n: &str) -> (r: bool)
    ensures
        r == has_substring(h@, n@),
{
    let hn = h.unicode_len();
    let nn = n.unicode_len();
    if nn > hn {
        proof {
            assert forall|i: int| !contains_at(h@, n@, i) by {}
        }
        return false;
    }
    if nn == 0 {
        proof {
            assert(h@.subrange(0, 0) =~= n@);
            assert(contains_at(h@, n@, 0));
        }
        return true;
    }
    let mut i: usize = 0;
    while i <= hn - nn
        invariant
            hn == h@.len(),
            nn == n@.len(),
            1 <= nn <= hn,
            0 <= i <= hn - nn + 1,
            forall|k: int| 0 <= k < i ==> !contains_at(h@, n@, k),
        decreases hn - nn + 1 - i,
    {
        let mut j: usize = 0;
        let mut all_equal = true;
        while j < nn
            invariant
                hn == h@.len(),
                nn == n@.len(),
                nn <= hn,
                0 <= i <= hn - nn,
                0 <= j <= nn,
                all_equal ==> forall|t: int| 0 <= t < j ==> h@[i + t] == n@[t],
                !all_equal ==> !contains_at(h@, n@, i as int),
            decreases nn - j,
        {
            if all_equal {
                let hc = h.get_char(i + j);
                let nc = n.get_char(j);
                if hc != nc {
                    proof {
                        if contains_at(h@, n@, i as int) {
                            assert(h@.subrange(i as int, i + nn)[j as int] == n@[j as int]);
                        }
                    }
                    all_equal = false;
                }
            }
            j = j + 1;
        }
        if all_equal {
            proof {
                assert(h@.subrange(i as int, i + nn) =~= n@);
                assert(contains_at(h@, n@, i as int));
            }
            return true;
        }
        i = i + 1;
    }
    proof {
        assert forall|k: int| !contains_at(h@, n@, k) by {
            if 0 <= k <= hn - nn {
                assert(!contains_at(h@, n@, k));
            }
        }
    }
    false
}

/// The name contains one of the known app names.
pub open spec fn matches_known(name: Seq<char>, known: Seq<String>) -> bool {
    exists|k: int| 0 <= k < known.len() && has_substring(name, (#[trigger] known[k])@)
}

/// Whether the name contains one of the known app names.
pub fn any_known_app(name: &str, known: &Vec<String>) -> (r: bool)
    ensures
        r == matches_known(name@, known@),
{
    let n = known.len();
    let mut k: usize = 0;
    while k < n
        invariant
            n == known@.len(),
            0 <= k <= n,
            forall|t: int| 0 <= t < k ==> !has_substring(name@, (#[trigger] known@[t])@),
        decreases n - k,
    {
        if str_contains(name, known[k].as_str()) {
            return true;
        }
        k = k + 1;
    }
    false
}

/// One installed app, as the installation proxy reports it.
pub struct AppEntry {
    pub name: String,
    pub bundle_id: String,
}

/// The app belongs to the vendor's own namespace and is dropped.
pub open spec fn is_vendor(e: AppEntry) -> bool {
    has_substring(e.bundle_id@, "com.apple"@)
}

/// The non-vendor apps whose known-name test comes out `want_known`, in
/// the order the device reported them.
pub open spec fn selected_apps(s: Seq<AppEntry>, known: Seq<String>, want_known: bool) -> Seq<
    AppEntry,
>
    decreases s.len(),
{
    if s.len() == 0 {
        Seq::empty()
    } else {
        let rest = selected_apps(s.drop_last(), known, want_known);
        if !is_vendor(s.last()) && matches_known(s.last().name@, known) == want_known {
            rest.push(s.last())
        } else {
            rest
        }
    }
}

/// Splits the device's app list: vendor apps dropped, the rest split into
/// the preferred apps (their name contains a known app name) and the others.
pub fn filter_apps(entries: Vec<AppEntry>, known: &Vec<String>) -> (r: (Vec<AppEntry>, Vec<
    AppEntry,
>))
    ensures
        r.0@ == selected_apps(entries@, known@, true),
        r.1@ == selected_apps(entries@, known@, false),
{
    let ghost orig = entries@;
    let mut rest = entries;
    let mut preferred: Vec<AppEntry> = Vec::new();
    let mut others: Vec<AppEntry> = Vec::new();
    let ghost mut k: int = 0;
    proof {
        assert(orig.take(0) =~= Seq::<AppEntry>::empty());
    }
    while rest.len() > 0
        invariant
            rest@ == orig.skip(k),
            0 <= k <= orig.len(),
            preferred@ == selected_apps(orig.take(k), known@, true),
            others@ == selected_apps(orig.take(k), known@, false),
        decreases rest@.len(),
    {
        let e = rest.remove(0);
        proof {
            assert(orig.skip(k)[0] == orig[k]);
            assert(e == orig[k]);
            assert(rest@ =~= orig.skip(k + 1));
            assert(orig.take(k + 1).drop_last() =~= orig.take(k));
            assert(orig.take(k + 1).last() == orig[k]);
        }
        if !str_contains(e.bundle_id.as_str(), "com.apple") {
            if any_known_app(e.name.as_str(), known) {
                preferred.push(e);
            } else {
                others.push(e);
            }
        }
        proof {
            k = k + 1;
        }
    }
    proof {
        assert(orig.skip(k).len() == orig.len() - k);
        assert(orig.take(k) =~= orig);
    }
    (preferred, others)
}

} // verus!
