//! The feeds that the application recommends, by category.

use vstd::prelude::*;

verus! {

/// A recommended feed.
#[derive(Debug, Clone, Copy, PartialEq, Eq)]
pub struct RecFeed {
    pub title: &'static str,
    pub url: &'static str,
    pub desc: &'static str,
}

/// Mathematical value of a [`RecFeed`].
pub struct RecFeedView {
    pub title: Seq<char>,
    pub url: Seq<char>,
    pub desc: Seq<char>,
}

impl View for RecFeed {
    type V = RecFeedView;

    open spec fn view(&self) -> RecFeedView {
        RecFeedView { title: self.title@, url: self.url@, desc: self.desc@ }
    }
}

impl DeepView for RecFeed {
    type V = RecFeedView;

    open spec fn deep_view(&self) -> RecFeedView {
        self@
    }
}

/// A category of recommended feeds.
#[derive(Debug, Clone, PartialEq, Eq)]
pub struct RecCategory {
    pub name: &'static str,
    pub feeds: Vec<RecFeed>,
}

/// Mathematical value of a [`RecCategory`].
pub struct RecCategoryView {
    pub name: Seq<char>,
    pub feeds: Seq<RecFeedView>,
}

impl View for RecCategory {
    type V = RecCategoryView;

    open spec fn view(&self) -> RecCategoryView {
        RecCategoryView { name: self.name@, feeds: self.feeds.deep_view() }
    }
}

impl DeepView for RecCategory {
    type V = RecCategoryView;

    open spec fn deep_view(&self) -> RecCategoryView {
        self@
    }
}

/// The value of a feed with these texts.
pub open spec fn feed_of(title: &str, url: &str, desc: &str) -> RecFeedView {
    RecFeedView { title: title@, url: url@, desc: desc@ }
}

/// The recommended technology feeds.
pub open spec fn technology_feeds() -> Seq<RecFeedView> {
    seq![
        feed_of(
            "Ars Technica",
            "https://arstechnica.com/feed/",
            "Actualités et analyses high‑tech, science et société.",
        ),
        feed_of(
            "TechCrunch",
            "https://techcrunch.com/feed/",
            "Startups, produits et innovations du monde de la tech.",
        ),
        feed_of(
            "The Register",
            "https://www.theregister.com/headlines.atom",
            "IT, logiciels, matériel et industrie (ton décalé).",
        ),
        feed_of(
            "Numerama",
            "https://www.numerama.com/feed/",
            "Culture numérique, société, environnement et science (FR).",
        ),
        feed_of("Korben", "https://korben.info/feed", "Veille tech, tips et découvertes (FR)."),
    ]
}

/// The recommended programming feeds.
pub open spec fn programming_feeds() -> Seq<RecFeedView> {
    seq![
        feed_of(
            "Rust Blog",
            "https://blog.rust-lang.org/feed.xml",
            "Annonces officielles du langage Rust.",
        ),
        feed_of(
            "GitHub Blog",
            "https://github.blog/feed/",
            "Actualités GitHub, produits et écosystème open‑source.",
        ),
        feed_of(
            "Stack Overflow Blog",
            "https://stackoverflow.blog/feed/",
            "Ingénierie, communauté et productivité.",
        ),
        feed_of(
            "Real Python",
            "https://realpython.com/atom.xml",
            "Tutoriels Python et bonnes pratiques.",
        ),
        feed_of(
            "dev.to",
            "https://dev.to/feed",
            "Articles communautaires sur le dev et les outils.",
        ),
    ]
}

/// The recommended science feeds.
pub open spec fn science_feeds() -> Seq<RecFeedView> {
    seq![
        feed_of(
            "NASA News",
            "https://www.nasa.gov/rss/dyn/breaking_news.rss",
            "Dernières nouvelles de la NASA.",
        ),
        feed_of(
            "ScienceDaily (All)",
            "https://www.sciencedaily.com/rss/all.xml",
            "Sélection d’articles de vulgarisation scientifique.",
        ),
        feed_of(
            "Nature – Latest",
            "https://www.nature.com/nature.rss",
            "Publications et actualités de la revue Nature.",
        ),
        feed_of(
            "Quanta Magazine",
            "https://api.quantamagazine.org/feed/",
            "Maths, physique, informatique et biologie théorique.",
        ),
        feed_of(
            "MIT News",
            "https://news.mit.edu/rss/topic/engineering",
            "Recherches et innovations du MIT (ingénierie).",
        ),
    ]
}

/// The recommended French news feeds.
pub open spec fn news_feeds() -> Seq<RecFeedView> {
    seq![
        feed_of(
            "Le Monde – Une",
            "https://www.lemonde.fr/rss/une.xml",
            "Sélection des principaux titres du Monde (FR).",
        ),
        feed_of(
            "France 24",
            "https://www.france24.com/fr/rss",
            "Info internationale en continu (FR).",
        ),
        feed_of(
            "Le Figaro – International",
            "https://www.lefigaro.fr/rss/figaro_international.xml",
            "Actualité internationale (FR).",
        ),
        feed_of(
            "ZDNet France",
            "https://www.zdnet.fr/feeds/rss/actualites/",
            "Technologies et entreprises (FR).",
        ),
        feed_of("01net", "https://www.01net.com/feed/", "High-tech, tests et dossiers (FR)."),
    ]
}

/// The catalogue of recommendations: four categories of five feeds each.
pub open spec fn catalogue() -> Seq<RecCategoryView> {
    seq![
        RecCategoryView { name: "Technologie"@, feeds: technology_feeds() },
        RecCategoryView { name: "Programmation"@, feeds: programming_feeds() },
        RecCategoryView { name: "Science"@, feeds: science_feeds() },
        RecCategoryView { name: "Actualités (FR)"@, feeds: news_feeds() },
    ]
}

fn feed(title: &'static str, url: &'static str, desc: &'static str) -> (out: RecFeed)
    ensures
        out@ == feed_of(title, url, desc),
{
    RecFeed { title, url, desc }
}

fn category(name: &'static str, feeds: Vec<RecFeed>) -> (out: RecCategory)
    ensures
        out@ == (RecCategoryView { name: name@, feeds: feeds.deep_view() }),
{
    RecCategory { name, feeds }
}

fn technology() -> (feeds: Vec<RecFeed>)
    ensures
        feeds.deep_view() == technology_feeds(),
{
    let mut feeds: Vec<RecFeed> = Vec::new();
    feeds.push(
        feed(
            "Ars Technica",
            "https://arstechnica.com/feed/",
            "Actualités et analyses high‑tech, science et société.",
        ),
    );
    feeds.push(
        feed(
            "TechCrunch",
            "https://techcrunch.com/feed/",
            "Startups, produits et innovations du monde de la tech.",
        ),
    );
    feeds.push(
        feed(
            "The Register",
            "https://www.theregister.com/headlines.atom",
            "IT, logiciels, matériel et industrie (ton décalé).",
        ),
    );
    feeds.push(
        feed(
            "Numerama",
            "https://www.numerama.com/feed/",
            "Culture numérique, société, environnement et science (FR).",
        ),
    );
    feeds.push(feed("Korben", "https://korben.info/feed", "Veille tech, tips et découvertes (FR)."));
    assert(feeds.deep_view() =~= technology_feeds());
    feeds
}

fn programming() -> (feeds: Vec<RecFeed>)
    ensures
        feeds.deep_view() == programming_feeds(),
{
    let mut feeds: Vec<RecFeed> = Vec::new();
    feeds.push(
        feed(
            "Rust Blog",
            "https://blog.rust-lang.org/feed.xml",
            "Annonces officielles du langage Rust.",
        ),
    );
    feeds.push(
        feed(
            "GitHub Blog",
            "https://github.blog/feed/",
            "Actualités GitHub, produits et écosystème open‑source.",
        ),
    );
    feeds.push(
        feed(
            "Stack Overflow Blog",
            "https://stackoverflow.blog/feed/",
            "Ingénierie, communauté et productivité.",
        ),
    );
    feeds.push(
        feed(
            "Real Python",
            "https://realpython.com/atom.xml",
            "Tutoriels Python et bonnes pratiques.",
        ),
    );
    feeds.push(
        feed("dev.to", "https://dev.to/feed", "Articles communautaires sur le dev et les outils."),
    );
    assert(feeds.deep_view() =~= programming_feeds());
    feeds
}

fn science() -> (feeds: Vec<RecFeed>)
    ensures
        feeds.deep_view() == science_feeds(),
{
    let mut feeds: Vec<RecFeed> = Vec::new();
    feeds.push(
        feed(
            "NASA News",
            "https://www.nasa.gov/rss/dyn/breaking_news.rss",
            "Dernières nouvelles de la NASA.",
        ),
    );
    feeds.push(
        feed(
            "ScienceDaily (All)",
            "https://www.sciencedaily.com/rss/all.xml",
            "Sélection d’articles de vulgarisation scientifique.",
        ),
    );
    feeds.push(
        feed(
            "Nature – Latest",
            "https://www.nature.com/nature.rss",
            "Publications et actualités de la revue Nature.",
        ),
    );
    feeds.push(
        feed(
            "Quanta Magazine",
            "https://api.quantamagazine.org/feed/",
            "Maths, physique, informatique et biologie théorique.",
        ),
    );
    feeds.push(
        feed(
            "MIT News",
            "https://news.mit.edu/rss/topic/engineering",
            "Recherches et innovations du MIT (ingénierie).",
        ),
    );
    assert(feeds.deep_view() =~= science_feeds());
    feeds
}

fn news() -> (feeds: Vec<RecFeed>)
    ensures
        feeds.deep_view() == news_feeds(),
{
    let mut feeds: Vec<RecFeed> = Vec::new();
    feeds.push(
        feed(
            "Le Monde – Une",
            "https://www.lemonde.fr/rss/une.xml",
            "Sélection des principaux titres du Monde (FR).",
        ),
    );
    feeds.push(
        feed(
            "France 24",
            "https://www.france24.com/fr/rss",
            "Info internationale en continu (FR).",
        ),
    );
    feeds.push(
        feed(
            "Le Figaro – International",
            "https://www.lefigaro.fr/rss/figaro_international.xml",
            "Actualité internationale (FR).",
        ),
    );
    feeds.push(
        feed(
            "ZDNet France",
            "https://www.zdnet.fr/feeds/rss/actualites/",
            "Technologies et entreprises (FR).",
        ),
    );
    feeds.push(feed("01net", "https://www.01net.com/feed/", "High-tech, tests et dossiers (FR)."));
    assert(feeds.deep_view() =~= news_feeds());
    feeds
}

/// The categories of recommended feeds, in the order in which they are
/// shown.
pub fn recommended_categories() -> (categories: Vec<RecCategory>)
    ensures
        categories.deep_view() == catalogue(),
        categories.len() == 4,
        forall|i: int| 0 <= i < 4 ==> (#[trigger] categories[i]).feeds.len() == 5,
{
    let mut categories: Vec<RecCategory> = Vec::new();
    categories.push(category("Technologie", technology()));
    categories.push(category("Programmation", programming()));
    categories.push(category("Science", science()));
    categories.push(category("Actualités (FR)", news()));
    assert(categories.deep_view() =~= catalogue());
    assert forall|i: int| 0 <= i < 4 implies (#[trigger] categories[i]).feeds.len() == 5 by {
        assert(categories[i]@ == catalogue()[i]);
        assert(categories[i].feeds.deep_view().len() == categories[i].feeds.len());
    }
    categories
}

} // verus!
