use vstd::prelude::*;
use crate::error::{AppError, ErrorKind};
use crate::feed::{trim_of, trim_text};
use crate::qiita_api::opt_view;
use crate::text::{before_first, find_first, find_text, join2, lemma_find_from_occurs, occurs_at, text_before};

verus! {

/// Settings of a run.
#[derive(Debug, Clone)]
pub struct AppConfig {
    pub min_likes: u32,
    pub likes_per_page: u32,
    pub likes_max_pages: u32,
    pub max_feed_entries: usize,
    pub max_stored_days: u32,
    pub max_stored_items: usize,
    pub site_title: String,
    pub site_description: String,
    pub site_url: String,
    pub feed_path: String,
    pub feed_source: String,
    pub qiita_api_token: Option<String>,
}

pub open spec fn is_ascii_digit(c: char) -> bool {
    '0' <= c && c <= '9'
}

/// Value of a run of decimal digits.
pub open spec fn digits_value(s: Seq<char>) -> nat
    decreases s.len(),
{
    if s.len() == 0 {
        0
    } else {
        digits_value(s.drop_last()) * 10 + (s.last() as nat - '0' as nat) as nat
    }
}

/// What `str::parse::<u32>` gives: an optional `+`, then at least one decimal
/// digit and nothing else, with a value that fits in 32 bits.
pub open spec fn u32_of(s: Seq<char>) -> Option<u32> {
    let body = if s.len() > 0 && s[0] == '+' {
        s.drop_first()
    } else {
        s
    };
    if body.len() > 0 && (forall|i: int| 0 <= i < body.len() ==> is_ascii_digit(#[trigger] body[i]))
        && digits_value(body) <= u32::MAX {
        Some(digits_value(body) as u32)
    } else {
        None
    }
}

/// Relies on `str::parse::<u32>`, whose grammar `u32_of` states.
#[verifier::external_body]
fn parse_u32(s: &str) -> (r: Option<u32>)
    ensures
        r == u32_of(s@),
{
    s.parse::<u32>().ok()
}

/// `s` without its trailing slashes.
pub open spec fn without_trailing_slashes(s: Seq<char>) -> Seq<char>
    decreases s.len(),
{
    if s.len() > 0 && s.last() == '/' {
        without_trailing_slashes(s.drop_last())
    } else {
        s
    }
}

/// The site address without trailing slashes.
pub fn normalize_site_url(value: &str) -> (r: String)
    ensures
        r@ == without_trailing_slashes(value@),
{
    let mut end = value.unicode_len();
    assert(value@.subrange(0, end as int) =~= value@);
    while end > 0 && value.get_char(end - 1) == '/'
        invariant
            end <= value@.len(),
            without_trailing_slashes(value@) == without_trailing_slashes(value@.subrange(0, end as int)),
        decreases end,
    {
        assert(value@.subrange(0, end as int).drop_last() =~= value@.subrange(0, end - 1));
        end = end - 1;
    }
    String::from_str(value.substring_char(0, end))
}

/// Site address of a GitHub Pages site for a repository written `owner/name`:
/// the user site when `name` is `owner.github.io`, else the project site.
pub open spec fn site_url_of(repo: Seq<char>) -> Option<Seq<char>> {
    match find_first(repo, "/"@) {
        Some(p) => {
            let owner = repo.subrange(0, p);
            let name = before_first(repo.subrange(p + 1, repo.len() as int), "/"@);
            if name == owner + ".github.io"@ {
                Some("https://"@ + owner + ".github.io"@)
            } else {
                Some("https://"@ + owner + ".github.io/"@ + name)
            }
        },
        None => None,
    }
}

pub fn derive_site_url(repo: &str) -> (r: Option<String>)
    ensures
        opt_view(r) == site_url_of(repo@),
{
    proof {
        reveal_strlit("/");
        lemma_find_from_occurs(repo@, "/"@, 0);
    }
    match find_text(repo, "/") {
        Some(p) => {
            let len = repo.unicode_len();
            let owner = repo.substring_char(0, p);
            let name = text_before(repo.substring_char(p + 1, len), "/");
            let user_site = join2(owner, ".github.io");
            let site = join2("https://", user_site.as_str());
            assert(site@ =~= "https://"@ + owner@ + ".github.io"@);
            if name == user_site {
                Some(site)
            } else {
                let r = site.concat("/").concat(name.as_str());
                assert(r@ =~= "https://"@ + owner@ + ".github.io/"@ + name@) by {
                    reveal_strlit(".github.io");
                    reveal_strlit(".github.io/");
                    reveal_strlit("/");
                }
                Some(r)
            }
        },
        None => None,
    }
}

/// The value when it holds more than white space.
pub open spec fn non_blank(value: Option<Seq<char>>) -> Option<Seq<char>> {
    match value {
        Some(v) => if trim_of(v).len() > 0 {
            Some(v)
        } else {
            None
        },
        None => None,
    }
}

/// Keeps a setting read from the environment only when it is not blank.
pub fn non_blank_value(value: Option<String>) -> (r: Option<String>)
    ensures
        opt_view(r) == non_blank(opt_view(value)),
{
    match value {
        Some(v) => {
            if trim_text(v.as_str()).as_str().unicode_len() > 0 {
                Some(v)
            } else {
                None
            }
        },
        None => None,
    }
}

impl AppConfig {
    /// The settings are usable: every count and limit is at least 1 and the
    /// feed source is not blank.
    pub open spec fn valid(&self) -> bool {
        &&& self.likes_per_page >= 1
        &&& self.likes_max_pages >= 1
        &&& self.max_feed_entries >= 1
        &&& self.max_stored_days >= 1
        &&& self.max_stored_items >= 1
        &&& trim_of(self.feed_source@).len() > 0
    }

    pub fn validate(&self) -> (r: Result<(), AppError>)
        ensures
            r is Ok <==> self.valid(),
            r matches Err(e) ==> e.kind == ErrorKind::Config,
    {
        if self.likes_per_page == 0 {
            return Err(AppError::config(String::from_str("likes_per_page must be at least 1")));
        }
        if self.likes_max_pages == 0 {
            return Err(AppError::config(String::from_str("likes_max_pages must be at least 1")));
        }
        if self.max_feed_entries == 0 {
            return Err(AppError::config(String::from_str("max_feed_entries must be at least 1")));
        }
        if self.max_stored_days == 0 {
            return Err(AppError::config(String::from_str("max_stored_days must be at least 1")));
        }
        if self.max_stored_items == 0 {
            return Err(AppError::config(String::from_str("max_stored_items must be at least 1")));
        }
        if trim_text(self.feed_source.as_str()).as_str().unicode_len() == 0 {
            return Err(AppError::config(String::from_str("feed_source is empty")));
        }
        Ok(())
    }

    /// Applies the overrides taken from the environment (blank ones already
    /// dropped): a minimum like count, which must be a number, a site address
    /// and an access token.
    pub fn apply_env_overrides(
        &mut self,
        min_likes: Option<String>,
        site_url: Option<String>,
        token: Option<String>,
    ) -> (r: Result<(), AppError>)
        ensures
            match min_likes {
                Some(v) => match u32_of(v@) {
                    Some(n) => r is Ok && final(self).min_likes == n,
                    None => r matches Err(e) && e.kind == ErrorKind::Config,
                },
                None => r is Ok && final(self).min_likes == old(self).min_likes,
            },
            r is Ok ==> final(self).site_url@ == (match site_url {
                Some(u) => u@,
                None => old(self).site_url@,
            }),
            r is Ok ==> opt_view(final(self).qiita_api_token) == (match token {
                Some(t) => Some(t@),
                None => opt_view(old(self).qiita_api_token),
            }),
    {
        if let Some(v) = &min_likes {
            match parse_u32(v.as_str()) {
                Some(n) => self.min_likes = n,
                None => return Err(AppError::config(String::from_str("MIN_LIKES is not a number"))),
            }
        }
        if let Some(u) = site_url {
            self.site_url = u;
        }
        if let Some(t) = token {
            self.qiita_api_token = Some(t);
        }
        Ok(())
    }

    /// Settles the site address: a non-blank one loses its trailing slashes;
    /// a blank one is derived from the repository name, when one is given.
    pub fn ensure_site_url(&mut self, repository: Option<String>)
        ensures
            final(self).site_url@ == (if trim_of(old(self).site_url@).len() > 0 {
                without_trailing_slashes(old(self).site_url@)
            } else {
                match repository {
                    Some(repo) => match site_url_of(repo@) {
                        Some(u) => u,
                        None => old(self).site_url@,
                    },
                    None => old(self).site_url@,
                }
            }),
    {
        if trim_text(self.site_url.as_str()).as_str().unicode_len() > 0 {
            self.site_url = normalize_site_url(self.site_url.as_str());
            return;
        }
        if let Some(repo) = repository {
            if let Some(url) = derive_site_url(repo.as_str()) {
                self.site_url = url;
            }
        }
    }
}

} // verus!
