use vstd::prelude::*;

verus! {

/// A single blog entry: the one entity the store manages.  `id` is
/// assigned by the store (client-supplied ids are ignored on creation);
/// the four text fields are free-form.
pub struct BlogPost {
    pub id: i32,
    pub date: String,
    pub title: String,
    pub body: String,
    pub author: String,
}

/// Mathematical image of a post: the id as an integer and the four
/// text fields as character sequences.
pub struct PostView {
    pub id: int,
    pub date: Seq<char>,
    pub title: Seq<char>,
    pub body: Seq<char>,
    pub author: Seq<char>,
}

impl View for BlogPost {
    type V = PostView;

    open spec fn view(&self) -> PostView {
        PostView {
            id: self.id as int,
            date: self.date@,
            title: self.title@,
            body: self.body@,
            author: self.author@,
        }
    }
}

impl PostView {
    /// The same record with another id.
    pub open spec fn with_id(self, id: int) -> PostView {
        PostView { id, ..self }
    }
}

/// Two records agree on everything except possibly the id.
pub open spec fn same_content(a: PostView, b: PostView) -> bool {
    &&& a.date == b.date
    &&& a.title == b.title
    &&& a.body == b.body
    &&& a.author == b.author
}

impl BlogPost {
    /// Build a candidate record.  The id starts at 0; the store
    /// overwrites it on insertion.
    pub fn new(date: String, title: String, body: String, author: String) -> (p: BlogPost)
        ensures
            p@ == (PostView {
                id: 0,
                date: date@,
                title: title@,
                body: body@,
                author: author@,
            }),
    {
        BlogPost { id: 0, date, title, body, author }
    }

    /// Field-for-field copy of the record.
    pub fn duplicate(&self) -> (p: BlogPost)
        ensures
            p@ == self@,
    {
        BlogPost {
            id: self.id,
            date: self.date.clone(),
            title: self.title.clone(),
            body: self.body.clone(),
            author: self.author.clone(),
        }
    }
}

} // verus!
