use saffi_wtf::{Date, DynamicColours, HandlerError, OptionExt, RenderPost, RenderStatic};

#[test]
fn handler_errors_map_to_status_codes() {
    assert_eq!(HandlerError::NotFound.status_code(), 404);
    assert_eq!(HandlerError::InternalError.status_code(), 500);
}

#[test]
fn handler_errors_have_messages() {
    assert_eq!(HandlerError::NotFound.message(), "page not found");
    assert_eq!(HandlerError::InternalError.message(), "internal server error");
}

#[test]
fn stock_colours() {
    assert_eq!(DynamicColours::default().error_background, "#e56849");
}

#[test]
fn render_static_wraps_content() {
    let r = RenderStatic::new("<p>hi</p>");
    assert_eq!(r.content(), "<p>hi</p>");
}

#[test]
fn render_post_wraps_content_and_date() {
    let date = Date { year: 2024, month: 1, day: 15 };
    let r = RenderPost::new("<p>hi</p>", &date);
    assert_eq!(r.content(), "<p>hi</p>");
    assert_eq!(*r.date(), date);
}

#[test]
fn err_or_flips_presence() {
    assert_eq!(Some(3).err_or("ok"), Err(3));
    assert_eq!(None::<i32>.err_or("ok"), Ok("ok"));
}

#[test]
fn err_or_else_runs_only_when_absent() {
    assert_eq!(Some('x').err_or_else(|| 1), Err('x'));
    assert_eq!(None::<char>.err_or_else(|| 1), Ok(1));
}

#[test]
fn swap_results_both_ways() {
    let ok: Result<i32, &str> = Ok(1);
    let err: Result<i32, &str> = Err("e");
    assert_eq!(saffi_wtf::SwapResult::swap(ok), Err(1));
    assert_eq!(saffi_wtf::SwapResult::swap(err), Ok("e"));
    let ok: Result<i32, &str> = Ok(2);
    assert_eq!(saffi_wtf::ResultExt::swap(ok), Err(2));
}
