//! Suggesting a Python import line from a short mnemonic, by fuzzy matching
//! against two catalogs of modules commonly used in data analysis.
use vstd::prelude::*;
use crate::text::{push_char, push_str};
use vstd::string::StringExecFns;

verus! {

/// The texts of a list of string slices.
pub open spec fn names(v: Seq<&str>) -> Seq<Seq<char>> {
    v.map(|_i: int, s: &str| s@)
}

/// Modules suggested for `import <module>`.
pub open spec fn import_modules() -> Seq<Seq<char>> {
    seq![
        "sys"@,
        "math"@,
        "random"@,
        "argparse"@,
        "datetime"@,
        "matplotlib.pyplot as plt"@,
        "matplotlib.patches as patches"@,
        "matplotlib.collections"@,
        "matplotlib.image as mpimg"@,
        "functools"@,
        "itertools"@,
        "numpy as np"@,
        "pandas as pd"@,
        "subprocess"@,
        "requests"@,
        "seaborn as sns"@,
        "statsmodels.api as sm"@,
        "statsmodels.formula.api as smf"@,
        "zipline as zp"@,
    ]
}

/// Names suggested for `from <module> import <name>`.
pub open spec fn from_imports() -> Seq<Seq<char>> {
    seq![
        "numpy.random import choice"@,
        "collections import Counter"@,
        "collections import defaultdict"@,
        "sklearn.linear_model import LinearRegression"@,
        "sklearn.linear_model import LogisticRegression"@,
        "sklearn.pipeline import make_pipeline"@,
        "sklearn.model_selection import train_test_split"@,
        "sklearn.metrics import confusion_matrix"@,
        "sklearn.manifold import Isomap"@,
        "sklearn.model_selection import GridSearchCV"@,
        "sklearn.model_selection import cross_val_score"@,
        "sklearn.decomposition import PCA"@,
        "sklearn.svm import SVC"@,
        "sklearn.naive_bayes import GaussianNB"@,
        "sklearn.neighbors import KNeighborsClassifier"@,
        "sklearn.feature_extraction.text import TfidfVectorizer"@,
        "sklearn.preprocessing import PolynomialFeatures"@,
        "sklearn.datasets import load_iris"@,
        "sklearn.datasets import make_blobs"@,
        "sklearn.datasets import load_digits"@,
        "sklearn.ensemble import RandomForestClassifier"@,
        "sklearn.metrics import accuracy_score"@,
        "sklearn.linear_model import Ridge"@,
        "sklearn.cluster import KMeans"@,
        "sklearn.tree import DecisionTreeRegressor"@,
        "sklearn.tree import DecisionTreeClassifier"@,
        "mpl_toolkits.basemap import Basemap"@,
        "tensorflow import keras"@,
        "bs4 import BeautifulSoup"@,
    ]
}

/// The catalog behind `get_imports`.
pub fn import_catalog() -> (r: Vec<&'static str>)
    ensures
        names(r@) == import_modules(),
{
    let mut v: Vec<&'static str> = Vec::new();
    v.push("sys");
    v.push("math");
    v.push("random");
    v.push("argparse");
    v.push("datetime");
    v.push("matplotlib.pyplot as plt");
    v.push("matplotlib.patches as patches");
    v.push("matplotlib.collections");
    v.push("matplotlib.image as mpimg");
    v.push("functools");
    v.push("itertools");
    v.push("numpy as np");
    v.push("pandas as pd");
    v.push("subprocess");
    v.push("requests");
    v.push("seaborn as sns");
    v.push("statsmodels.api as sm");
    v.push("statsmodels.formula.api as smf");
    v.push("zipline as zp");
    assert(names(v@) =~= import_modules());
    v
}

/// The catalog behind `get_static_imports`.
pub fn static_import_catalog() -> (r: Vec<&'static str>)
    ensures
        names(r@) == from_imports(),
{
    let mut v: Vec<&'static str> = Vec::new();
    v.push("numpy.random import choice");
    v.push("collections import Counter");
    v.push("collections import defaultdict");
    v.push("sklearn.linear_model import LinearRegression");
    v.push("sklearn.linear_model import LogisticRegression");
    v.push("sklearn.pipeline import make_pipeline");
    v.push("sklearn.model_selection import train_test_split");
    v.push("sklearn.metrics import confusion_matrix");
    v.push("sklearn.manifold import Isomap");
    v.push("sklearn.model_selection import GridSearchCV");
    v.push("sklearn.model_selection import cross_val_score");
    v.push("sklearn.decomposition import PCA");
    v.push("sklearn.svm import SVC");
    v.push("sklearn.naive_bayes import GaussianNB");
    v.push("sklearn.neighbors import KNeighborsClassifier");
    v.push("sklearn.feature_extraction.text import TfidfVectorizer");
    v.push("sklearn.preprocessing import PolynomialFeatures");
    v.push("sklearn.datasets import load_iris");
    v.push("sklearn.datasets import make_blobs");
    v.push("sklearn.datasets import load_digits");
    v.push("sklearn.ensemble import RandomForestClassifier");
    v.push("sklearn.metrics import accuracy_score");
    v.push("sklearn.linear_model import Ridge");
    v.push("sklearn.cluster import KMeans");
    v.push("sklearn.tree import DecisionTreeRegressor");
    v.push("sklearn.tree import DecisionTreeClassifier");
    v.push("mpl_toolkits.basemap import Basemap");
    v.push("tensorflow import keras");
    v.push("bs4 import BeautifulSoup");
    assert(names(v@) =~= from_imports());
    v
}

/// The choice that fuzzywuzzy ranks closest to `query`.
pub uninterp spec fn closest_choice(query: Seq<char>, choices: Seq<Seq<char>>) -> Seq<char>;

/// Relies on `fuzzywuzzy::process::extract_one` with `utils::full_process`,
/// `fuzz::wratio` and a score cutoff of zero: every choice scores at least
/// zero, so a choice comes back exactly when there is one, and it is one of
/// the choices given.
#[verifier::external_body]
fn closest(query: &str, choices: &Vec<&str>) -> (r: Option<String>)
    ensures
        match r {
            Some(c) => choices@.len() > 0 && c@ == closest_choice(query@, names(choices@))
                && names(choices@).contains(c@),
            None => choices@.len() == 0,
        },
{
    let best = fuzzywuzzy::process::extract_one(
        query,
        choices.iter(),
        &fuzzywuzzy::utils::full_process,
        &fuzzywuzzy::fuzz::wratio,
        0,
    );
    best.map(|(c, _)| c)
}

/// `keyword`, a space and the choice closest to `mnemo`; empty when there
/// is no choice.
pub fn suggest_line(mnemo: &str, choices: &Vec<&str>, keyword: &str) -> (r: String)
    ensures
        r@ == if choices@.len() > 0 {
            keyword@ + seq![' '] + closest_choice(mnemo@, names(choices@))
        } else {
            Seq::<char>::empty()
        },
        choices@.len() > 0 ==> names(choices@).contains(closest_choice(mnemo@, names(choices@))),
{
    match closest(mnemo, choices) {
        Some(c) => {
            let mut r = String::from_str(keyword);
            push_char(&mut r, ' ');
            push_str(&mut r, c.as_str());
            r
        },
        None => String::new(),
    }
}

/// `import <module>` for the catalog module closest to `mnemo`.
pub fn get_imports(mnemo: &str) -> (r: String)
    ensures
        r@ == seq!['i', 'm', 'p', 'o', 'r', 't', ' '] + closest_choice(mnemo@, import_modules()),
        import_modules().contains(closest_choice(mnemo@, import_modules())),
{
    let catalog = import_catalog();
    proof {
        reveal_strlit("import");
        assert("import"@ =~= seq!['i', 'm', 'p', 'o', 'r', 't']);
        assert(names(catalog@).len() > 0);
    }
    let r = suggest_line(mnemo, &catalog, "import");
    assert(r@ =~= seq!['i', 'm', 'p', 'o', 'r', 't', ' '] + closest_choice(mnemo@, import_modules()));
    r
}

/// `from <module> import <name>` for the catalog entry closest to `mnemo`.
pub fn get_static_imports(mnemo: &str) -> (r: String)
    ensures
        r@ == seq!['f', 'r', 'o', 'm', ' '] + closest_choice(mnemo@, from_imports()),
        from_imports().contains(closest_choice(mnemo@, from_imports())),
{
    let catalog = static_import_catalog();
    proof {
        reveal_strlit("from");
        assert("from"@ =~= seq!['f', 'r', 'o', 'm']);
        assert(names(catalog@).len() > 0);
    }
    let r = suggest_line(mnemo, &catalog, "from");
    assert(r@ =~= seq!['f', 'r', 'o', 'm', ' '] + closest_choice(mnemo@, from_imports()));
    r
}

} // verus!
