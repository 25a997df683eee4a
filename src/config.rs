//! Defaults and checks of the service settings.
use vstd::prelude::*;
use crate::error::PageIndexError;

verus! {

/// Default largest number of tokens in a reply.
pub fn default_max_tokens() -> (r: u32)
    ensures
        r == 4096,
{
    4096
}

/// Checks that the service address, key and model are all given; the
/// first one missing is named in the error.
pub fn check_llm_settings(api_base: &str, api_key: &str, model: &str) -> (r: Result<(), PageIndexError>)
    ensures
        api_base@.len() > 0 && api_key@.len() > 0 && model@.len() > 0 <==> r is Ok,
        api_base@.len() == 0 ==> (r matches Err(PageIndexError::Config(m)) && m@
            == "LLM API base URL is required. Set LLM_API_BASE environment variable or add to config file."@),
        api_base@.len() > 0 && api_key@.len() == 0 ==> (r matches Err(PageIndexError::Config(m))
            && m@
            == "LLM API key is required. Set LLM_API_KEY environment variable or add to config file."@),
        api_base@.len() > 0 && api_key@.len() > 0 && model@.len() == 0 ==> (r matches Err(
            PageIndexError::Config(m),
        ) && m@
            == "LLM model is required. Set LLM_MODEL environment variable or add to config file."@),
{
    if api_base.is_empty() {
        return Err(
            PageIndexError::Config(
                "LLM API base URL is required. Set LLM_API_BASE environment variable or add to config file.".to_string(),
            ),
        );
    }
    if api_key.is_empty() {
        return Err(
            PageIndexError::Config(
                "LLM API key is required. Set LLM_API_KEY environment variable or add to config file.".to_string(),
            ),
        );
    }
    if model.is_empty() {
        return Err(
            PageIndexError::Config(
                "LLM model is required. Set LLM_MODEL environment variable or add to config file.".to_string(),
            ),
        );
    }
    Ok(())
}

} // verus!
