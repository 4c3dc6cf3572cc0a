use vstd::prelude::*;

use crate::text::concat;

verus! {

/// What the book records of one photo: its address, title and description.
pub type PhotoView = (Seq<char>, Seq<char>, Seq<char>);

/// What the book records: each user, once, with that user's photos in the order added.
pub type BookView = Seq<(Seq<char>, Seq<PhotoView>)>;

/// One photo of the book.
pub struct BookPhoto {
    /// Where the image file lies, below the image database root.
    pub url: String,
    /// The photo's title.
    pub title: String,
    /// The photo's description.
    pub description: String,
}

impl View for BookPhoto {
    type V = PhotoView;

    open spec fn view(&self) -> PhotoView {
        (self.url@, self.title@, self.description@)
    }
}

/// The photos of one user.
pub struct UserPhotos {
    /// The user.
    pub user: String,
    /// The user's photos, in the order they were added.
    pub photos: Vec<BookPhoto>,
}

impl View for UserPhotos {
    type V = (Seq<char>, Seq<PhotoView>);

    open spec fn view(&self) -> (Seq<char>, Seq<PhotoView>) {
        (self.user@, self.photos@.map_values(|p: BookPhoto| p@))
    }
}

/// No user occurs twice in the book.
pub open spec fn distinct_users(b: BookView) -> bool {
    forall|i: int, j: int| 0 <= i < j < b.len() ==> (#[trigger] b[i]).0 != (#[trigger] b[j]).0
}

/// Every user in the book has at least one photo.
pub open spec fn users_have_photos(b: BookView) -> bool {
    forall|i: int| 0 <= i < b.len() ==> (#[trigger] b[i]).1.len() > 0
}

/// The number of photos in the book.
pub open spec fn photo_count(b: BookView) -> int
    decreases b.len(),
{
    if b.len() == 0 {
        0
    } else {
        photo_count(b.drop_last()) + b.last().1.len()
    }
}

/// The index of `user` in the book, or -1 when the book has no photo of that user.
pub open spec fn user_index(b: BookView, user: Seq<char>) -> int
    decreases b.len(),
{
    if b.len() == 0 {
        -1
    } else if b.last().0 == user {
        b.len() - 1
    } else {
        user_index(b.drop_last(), user)
    }
}

/// The photos of `user` in the book; none when the user is not there.
pub open spec fn photos_of(b: BookView, user: Seq<char>) -> Seq<PhotoView> {
    if user_index(b, user) >= 0 {
        b[user_index(b, user)].1
    } else {
        Seq::empty()
    }
}

/// The book after adding photo `p` for `user`: appended to that user's photos, or, for a
/// user not in the book yet, the user added at the end with that one photo.
pub open spec fn with_photo(b: BookView, user: Seq<char>, p: PhotoView) -> BookView {
    if user_index(b, user) >= 0 {
        b.update(user_index(b, user), (user, b[user_index(b, user)].1.push(p)))
    } else {
        b.push((user, seq![p]))
    }
}

/// The collection of scraped photos, by user.
pub struct BookRoot {
    entries: Vec<UserPhotos>,
}

impl View for BookRoot {
    type V = BookView;

    closed spec fn view(&self) -> BookView {
        self.entries@.map_values(|e: UserPhotos| e@)
    }
}

proof fn lemma_user_index(b: BookView, user: Seq<char>, k: int)
    requires
        0 <= k <= b.len(),
        forall|j: int| 0 <= j < k ==> (#[trigger] b[j]).0 != user,
        k == b.len() || b[k].0 == user,
        distinct_users(b),
    ensures
        user_index(b, user) == if k == b.len() { -1 } else { k },
    decreases b.len(),
{
    if b.len() > 0 {
        if b.last().0 == user {
            if k < b.len() - 1 {
                assert(b[k].0 != b[b.len() - 1].0);
            }
        } else {
            let t = b.drop_last();
            assert forall|i: int, j: int| 0 <= i < j < t.len() implies (#[trigger] t[i]).0 != (
            #[trigger] t[j]).0 by {
                assert(t[i] == b[i] && t[j] == b[j]);
            }
            assert forall|j: int| 0 <= j < k && j < t.len() implies (#[trigger] t[j]).0 != user by {
                assert(t[j] == b[j]);
            }
            if k == b.len() {
                lemma_user_index(t, user, t.len() as int);
            } else {
                assert(t[k] == b[k]);
                lemma_user_index(t, user, k);
            }
        }
    }
}

proof fn lemma_user_index_same_keys(b1: BookView, b2: BookView, user: Seq<char>)
    requires
        b1.len() == b2.len(),
        forall|j: int| 0 <= j < b1.len() ==> (#[trigger] b1[j]).0 == b2[j].0,
    ensures
        user_index(b1, user) == user_index(b2, user),
    decreases b1.len(),
{
    if b1.len() > 0 {
        let t1 = b1.drop_last();
        let t2 = b2.drop_last();
        assert forall|j: int| 0 <= j < t1.len() implies (#[trigger] t1[j]).0 == t2[j].0 by {
            assert(t1[j] == b1[j] && t2[j] == b2[j]);
        }
        lemma_user_index_same_keys(t1, t2, user);
    }
}

proof fn lemma_user_index_found(b: BookView, user: Seq<char>)
    ensures
        user_index(b, user) == -1 || (0 <= user_index(b, user) < b.len() && b[user_index(
            b,
            user,
        )].0 == user),
    decreases b.len(),
{
    if b.len() > 0 && b.last().0 != user {
        lemma_user_index_found(b.drop_last(), user);
    }
}

/// Adding a photo for a user appends it to that user's photos and leaves every other
/// user's photos as they were; no user comes to occur twice.
pub proof fn lemma_with_photo(b: BookView, user: Seq<char>, p: PhotoView, other: Seq<char>)
    requires
        distinct_users(b),
    ensures
        distinct_users(with_photo(b, user, p)),
        photos_of(with_photo(b, user, p), other) == if other == user {
            photos_of(b, user).push(p)
        } else {
            photos_of(b, other)
        },
{
    let nb = with_photo(b, user, p);
    let k = user_index(b, user);
    lemma_user_index_found(b, user);
    lemma_user_index_found(b, other);
    if k >= 0 {
        assert forall|j: int| 0 <= j < nb.len() implies (#[trigger] nb[j]).0 == b[j].0 by {
        }
        lemma_user_index_same_keys(nb, b, other);
        assert forall|i: int, j: int| 0 <= i < j < nb.len() implies (#[trigger] nb[i]).0 != (
        #[trigger] nb[j]).0 by {
            assert(nb[i].0 == b[i].0 && nb[j].0 == b[j].0);
        }
    } else {
        assert(nb.drop_last() =~= b);
        assert forall|i: int, j: int| 0 <= i < j < nb.len() implies (#[trigger] nb[i]).0 != (
        #[trigger] nb[j]).0 by {
            if j < b.len() {
                assert(nb[i] == b[i] && nb[j] == b[j]);
            } else {
                assert(nb[i] == b[i]);
                if b[i].0 == user {
                    assert(0 <= i < b.len());
                    lemma_user_index(b, user, i);
                }
            }
        }
    }
}

proof fn lemma_photo_count_update(b: BookView, k: int, e: (Seq<char>, Seq<PhotoView>))
    requires
        0 <= k < b.len(),
    ensures
        photo_count(b.update(k, e)) == photo_count(b) - b[k].1.len() + e.1.len(),
    decreases b.len(),
{
    let nb = b.update(k, e);
    if k == b.len() - 1 {
        assert(nb.drop_last() =~= b.drop_last());
    } else {
        assert(nb.drop_last() =~= b.drop_last().update(k, e));
        lemma_photo_count_update(b.drop_last(), k, e);
    }
}

/// Adding a photo adds one to the number of photos and leaves every user with at least
/// one photo; so a book made by `new` and `m` additions holds `m` photos and no user
/// without photos.
pub proof fn lemma_with_photo_count(b: BookView, user: Seq<char>, p: PhotoView)
    requires
        users_have_photos(b),
    ensures
        users_have_photos(with_photo(b, user, p)),
        photo_count(with_photo(b, user, p)) == photo_count(b) + 1,
{
    let nb = with_photo(b, user, p);
    let k = user_index(b, user);
    lemma_user_index_found(b, user);
    if k >= 0 {
        lemma_photo_count_update(b, k, (user, b[k].1.push(p)));
        assert forall|i: int| 0 <= i < nb.len() implies (#[trigger] nb[i]).1.len() > 0 by {
            if i != k {
                assert(nb[i] == b[i]);
            }
        }
    } else {
        assert(nb.drop_last() =~= b);
        assert forall|i: int| 0 <= i < nb.len() implies (#[trigger] nb[i]).1.len() > 0 by {
            if i < b.len() {
                assert(nb[i] == b[i]);
            }
        }
    }
}

impl BookRoot {
    #[verifier::type_invariant]
    spec fn well_formed(self) -> bool {
        &&& distinct_users(self@)
        &&& users_have_photos(self@)
    }

    /// An empty book.
    pub fn new() -> (b: BookRoot)
        ensures
            b@ == Seq::<(Seq<char>, Seq<PhotoView>)>::empty(),
    {
        let b = BookRoot { entries: Vec::new() };
        assert(b@ =~= Seq::<(Seq<char>, Seq<PhotoView>)>::empty());
        b
    }

    /// The users and their photos, each user once, in the order they were first added.
    pub fn entries(&self) -> (r: &Vec<UserPhotos>)
        ensures
            r@.map_values(|e: UserPhotos| e@) == self@,
            distinct_users(self@),
            users_have_photos(self@),
    {
        proof {
            use_type_invariant(self);
        }
        &self.entries
    }

    /// Adds a photo with address `url` and description `description` for `for_user`;
    /// its title is empty.
    pub fn push_image(&mut self, for_user: &str, url: &str, description: String)
        ensures
            final(self)@ == with_photo(old(self)@, for_user@, (url@, Seq::empty(), description@)),
    {
        let photo = BookPhoto { url: url.to_owned(), title: String::new(), description };
        self.push_photo(for_user, photo);
    }

    /// Adds `photo` for `for_user`: after that user's photos, or, for a user not in the
    /// book yet, as that user's first photo with the user added at the end.
    pub fn push_photo(&mut self, for_user: &str, photo: BookPhoto)
        ensures
            final(self)@ == with_photo(old(self)@, for_user@, photo@),
    {
        proof {
            use_type_invariant(&*self);
        }
        let user = for_user.to_owned();
        let ghost p = photo@;
        let ghost b = self@;
        let mut entries: Vec<UserPhotos> = Vec::new();
        std::mem::swap(&mut entries, &mut self.entries);
        assert(entries@.map_values(|e: UserPhotos| e@) == b);
        let mut k: usize = 0;
        while k < entries.len() && entries[k].user != user
            invariant
                b == entries@.map_values(|e: UserPhotos| e@),
                distinct_users(b),
                k <= entries@.len(),
                user@ == for_user@,
                forall|j: int| 0 <= j < k ==> (#[trigger] b[j]).0 != user@,
            decreases entries@.len() - k,
        {
            assert(b[k as int] == entries@[k as int]@);
            k = k + 1;
        }
        if k < entries.len() {
            proof {
                assert(b[k as int] == entries@[k as int]@);
                lemma_user_index(b, user@, k as int);
            }
            let ghost old_entries = entries@;
            let mut entry = entries.remove(k);
            let ghost old_photos = entry.photos@;
            assert(entry == old_entries[k as int]);
            entry.photos.push(photo);
            assert(entry.photos@.map_values(|q: BookPhoto| q@) =~= old_photos.map_values(
                |q: BookPhoto| q@,
            ).push(p));
            entries.insert(k, entry);
            assert(entries@ =~= old_entries.update(k as int, entry));
            assert(entries@.map_values(|e: UserPhotos| e@) =~= with_photo(b, for_user@, p));
        } else {
            proof {
                lemma_user_index(b, user@, k as int);
            }
            let ghost old_entries = entries@;
            let mut photos: Vec<BookPhoto> = Vec::new();
            photos.push(photo);
            let entry = UserPhotos { user, photos };
            assert(entry@.1 =~= seq![p]);
            entries.push(entry);
            assert(entries@ =~= old_entries.push(entry));
            assert(entries@.map_values(|e: UserPhotos| e@) =~= with_photo(b, for_user@, p));
        }
        proof {
            lemma_with_photo(b, for_user@, p, for_user@);
            lemma_with_photo_count(b, for_user@, p);
        }
        self.entries = entries;
    }
}

/// The script that hands the book to the viewer page: `var book_viewer = ` and the JSON.
pub fn book_viewer_script(json: &str) -> (r: String)
    ensures
        r@ == "var book_viewer = "@ + json@,
{
    concat("var book_viewer = ", json)
}

} // verus!
