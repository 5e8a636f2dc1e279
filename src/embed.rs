//! A chainable description of a rich message ("embed").

use vstd::prelude::*;

verus! {

pub open spec fn text_is(o: Option<String>, s: Seq<char>) -> bool {
    o is Some && o->Some_0@ == s
}

/// The author line of an embed.
#[derive(Debug)]
pub struct EmbedAuthor {
    pub icon_url: Option<String>,
    pub name: String,
    pub url: Option<String>,
}

impl EmbedAuthor {
    pub fn new(name: &str) -> (r: Self)
        ensures
            r.name@ == name@,
            r.icon_url is None,
            r.url is None,
    {
        Self { icon_url: None, name: name.to_owned(), url: None }
    }

    pub fn icon_url(self, icon_url: &str) -> (r: Self)
        ensures
            text_is(r.icon_url, icon_url@),
            r.name == self.name,
            r.url == self.url,
    {
        Self { icon_url: Some(icon_url.to_owned()), ..self }
    }

    pub fn name(self, name: &str) -> (r: Self)
        ensures
            r.name@ == name@,
            r.icon_url == self.icon_url,
            r.url == self.url,
    {
        Self { name: name.to_owned(), ..self }
    }

    pub fn url(self, url: &str) -> (r: Self)
        ensures
            text_is(r.url, url@),
            r.name == self.name,
            r.icon_url == self.icon_url,
    {
        Self { url: Some(url.to_owned()), ..self }
    }
}

/// The footer line of an embed.
#[derive(Debug)]
pub struct EmbedFooter {
    pub icon_url: Option<String>,
    pub text: String,
}

impl EmbedFooter {
    pub fn new(text: &str) -> (r: Self)
        ensures
            r.text@ == text@,
            r.icon_url is None,
    {
        Self { icon_url: None, text: text.to_owned() }
    }

    pub fn icon_url(self, icon_url: &str) -> (r: Self)
        ensures
            text_is(r.icon_url, icon_url@),
            r.text == self.text,
    {
        Self { icon_url: Some(icon_url.to_owned()), ..self }
    }

    pub fn text(self, text: &str) -> (r: Self)
        ensures
            r.text@ == text@,
            r.icon_url == self.icon_url,
    {
        Self { text: text.to_owned(), ..self }
    }
}

/// A titled field of an embed.
#[derive(Debug)]
pub struct EmbedField {
    pub name: String,
    pub value: String,
    pub inline: bool,
}

impl EmbedField {
    pub fn new(name: &str, value: &str, inline: bool) -> (r: Self)
        ensures
            r.name@ == name@,
            r.value@ == value@,
            r.inline == inline,
    {
        Self { name: name.to_owned(), value: value.to_owned(), inline }
    }
}

/// An embed; the colour is a 24-bit RGB value and the timestamp an ISO 8601
/// text.
#[derive(Debug)]
pub struct Embed {
    pub author: Option<EmbedAuthor>,
    pub colour: Option<u32>,
    pub description: Option<String>,
    pub fields: Vec<EmbedField>,
    pub footer: Option<EmbedFooter>,
    pub image: Option<String>,
    pub thumbnail: Option<String>,
    pub timestamp: Option<String>,
    pub title: Option<String>,
    pub url: Option<String>,
    pub attachment: Option<String>,
}

impl Embed {
    pub fn new() -> (r: Self)
        ensures
            r.author is None && r.colour is None && r.description is None && r.footer is None,
            r.image is None && r.thumbnail is None && r.timestamp is None && r.title is None,
            r.url is None && r.attachment is None,
            r.fields@.len() == 0,
    {
        Self {
            author: None,
            colour: None,
            description: None,
            fields: Vec::new(),
            footer: None,
            image: None,
            thumbnail: None,
            timestamp: None,
            title: None,
            url: None,
            attachment: None,
        }
    }

    pub fn author(self, author: EmbedAuthor) -> (r: Self)
        ensures
            r == (Embed { author: Some(author), ..self }),
    {
        Self { author: Some(author), ..self }
    }

    pub fn colour(self, colour: u32) -> (r: Self)
        ensures
            r == (Embed { colour: Some(colour), ..self }),
    {
        Self { colour: Some(colour), ..self }
    }

    pub fn description(self, description: &str) -> (r: Self)
        ensures
            text_is(r.description, description@),
            r == (Embed { description: r.description, ..self }),
    {
        Self { description: Some(description.to_owned()), ..self }
    }

    pub fn field(self, field: (&str, &str, bool)) -> (r: Self)
        ensures
            r.fields@.len() == self.fields@.len() + 1,
            r.fields@.drop_last() == self.fields@,
            r.fields@.last().name@ == field.0@,
            r.fields@.last().value@ == field.1@,
            r.fields@.last().inline == field.2,
            r == (Embed { fields: r.fields, ..self }),
    {
        let mut s = self;
        s.fields.push(EmbedField::new(field.0, field.1, field.2));
        proof {
            assert(s.fields@.drop_last() =~= self.fields@);
        }
        s
    }

    pub fn fields(self, fields: Vec<EmbedField>) -> (r: Self)
        ensures
            r.fields@ == self.fields@ + fields@,
            r == (Embed { fields: r.fields, ..self }),
    {
        let mut s = self;
        let mut more = fields;
        s.fields.append(&mut more);
        s
    }

    pub fn footer(self, footer: EmbedFooter) -> (r: Self)
        ensures
            r == (Embed { footer: Some(footer), ..self }),
    {
        Self { footer: Some(footer), ..self }
    }

    pub fn image(self, image: &str) -> (r: Self)
        ensures
            text_is(r.image, image@),
            r == (Embed { image: r.image, ..self }),
    {
        Self { image: Some(image.to_owned()), ..self }
    }

    pub fn thumbnail(self, thumbnail: &str) -> (r: Self)
        ensures
            text_is(r.thumbnail, thumbnail@),
            r == (Embed { thumbnail: r.thumbnail, ..self }),
    {
        Self { thumbnail: Some(thumbnail.to_owned()), ..self }
    }

    pub fn timestamp(self, timestamp: &str) -> (r: Self)
        ensures
            text_is(r.timestamp, timestamp@),
            r == (Embed { timestamp: r.timestamp, ..self }),
    {
        Self { timestamp: Some(timestamp.to_owned()), ..self }
    }

    pub fn title(self, title: &str) -> (r: Self)
        ensures
            text_is(r.title, title@),
            r == (Embed { title: r.title, ..self }),
    {
        Self { title: Some(title.to_owned()), ..self }
    }

    pub fn url(self, url: &str) -> (r: Self)
        ensures
            text_is(r.url, url@),
            r == (Embed { url: r.url, ..self }),
    {
        Self { url: Some(url.to_owned()), ..self }
    }

    /// Replaces the field at `index` when there is one there; otherwise the
    /// embed is returned unchanged.
    pub fn set_field_at(self, index: usize, field: EmbedField) -> (r: Self)
        ensures
            index < self.fields@.len() ==> r.fields@ == self.fields@.update(index as int, field),
            index >= self.fields@.len() ==> r.fields@ == self.fields@,
            r == (Embed { fields: r.fields, ..self }),
    {
        let mut s = self;
        if index < s.fields.len() {
            s.fields.set(index, field);
        }
        s
    }
}

} // verus!
